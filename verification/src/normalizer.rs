//! Module normalizer: a static rewriting pass over the raw bytes of a guest
//! binary module. It detects handle-using host-function imports, and patches
//! the module with a backing table of opaque-reference slots, a free-list
//! memory and length global, and save and drop functions exported under
//! fixed names, so the host can locate them after instantiation. The
//! synthesized pair implements the table's reuse discipline — most recently
//! freed index first, reserved low range never released — whose statement
//! and proof live on `ResourceTable`; of the emitted code itself, what is
//! verified is that exactly the stated bytes are written. Every synthesized
//! artifact is appended to its section, so existing indices keep their
//! meaning and no call site is rewritten: guest code reaches the bridge
//! through the exported functions. The pass is a pure function of the input
//! bytes; a module with no qualifying imports is returned byte-for-byte
//! unchanged.

use vstd::prelude::*;
use vstd::slice::slice_index_get;
use vstd::slice::slice_subrange;
use vstd::slice::slice_to_vec;

verus! {

/// Why normalization rejected a module: the bytes do not parse as a binary
/// module; a handle-using import has a signature the patcher does not know
/// how to bridge; or the module's declared entry counts would push a
/// synthesized index or a section size past what the format can write.
/// The three are reported distinctly so tooling can say why a module was
/// turned away.
#[derive(Clone, Copy, PartialEq, Eq, Structural, Debug)]
pub enum NormError {
    Malformed,
    UnsupportedSignature,
    IndexOverflow,
}

/// The import namespace of the runtime's own host functions; imports from
/// it cross the handle bridge.
pub open spec fn spec_host_namespace() -> Seq<u8> {
    seq![0x6cu8, 0x75, 0x6e, 0x61, 0x74, 0x69, 0x63]
}

/// Name under which the synthesized save function is exported.
#[verifier::opaque]
pub open spec fn spec_save_export_name() -> Seq<u8> {
    seq![0x5fu8, 0x6c, 0x75, 0x6e, 0x61, 0x74, 0x69, 0x63, 0x5f, 0x65, 0x78, 0x74, 0x65, 0x72, 0x6e, 0x72, 0x65, 0x66, 0x5f, 0x73, 0x61, 0x76, 0x65]
}

/// Name under which the synthesized drop function is exported.
#[verifier::opaque]
pub open spec fn spec_drop_export_name() -> Seq<u8> {
    seq![0x5fu8, 0x6c, 0x75, 0x6e, 0x61, 0x74, 0x69, 0x63, 0x5f, 0x65, 0x78, 0x74, 0x65, 0x72, 0x6e, 0x72, 0x65, 0x66, 0x5f, 0x64, 0x72, 0x6f, 0x70]
}

/// Name under which the synthesized backing table is exported.
#[verifier::opaque]
pub open spec fn spec_table_export_name() -> Seq<u8> {
    seq![0x5fu8, 0x5f, 0x6c, 0x75, 0x6e, 0x61, 0x74, 0x69, 0x63, 0x5f, 0x65, 0x78, 0x74, 0x65, 0x72, 0x6e, 0x72, 0x65, 0x66, 0x5f, 0x72, 0x65, 0x73, 0x6f, 0x75, 0x72, 0x63, 0x65, 0x5f, 0x74, 0x61, 0x62, 0x6c, 0x65]
}

/// The fixed export name of the synthesized save function, as bytes.
pub fn save_export_name() -> (v: Vec<u8>)
    ensures
        v@ == spec_save_export_name(),
        v@.len() <= 0xFFFF_FFFF,
{
    let mut v: Vec<u8> = Vec::new();
        v.push(0x5f);
        v.push(0x6c);
        v.push(0x75);
        v.push(0x6e);
        v.push(0x61);
        v.push(0x74);
        v.push(0x69);
        v.push(0x63);
        v.push(0x5f);
        v.push(0x65);
        v.push(0x78);
        v.push(0x74);
        v.push(0x65);
        v.push(0x72);
        v.push(0x6e);
        v.push(0x72);
        v.push(0x65);
        v.push(0x66);
        v.push(0x5f);
        v.push(0x73);
        v.push(0x61);
        v.push(0x76);
        v.push(0x65);
    proof {
        reveal(spec_save_export_name);
        assert(v@ =~= spec_save_export_name());
    }
    v
}

/// The fixed export name of the synthesized drop function, as bytes.
pub fn drop_export_name() -> (v: Vec<u8>)
    ensures
        v@ == spec_drop_export_name(),
        v@.len() <= 0xFFFF_FFFF,
{
    let mut v: Vec<u8> = Vec::new();
        v.push(0x5f);
        v.push(0x6c);
        v.push(0x75);
        v.push(0x6e);
        v.push(0x61);
        v.push(0x74);
        v.push(0x69);
        v.push(0x63);
        v.push(0x5f);
        v.push(0x65);
        v.push(0x78);
        v.push(0x74);
        v.push(0x65);
        v.push(0x72);
        v.push(0x6e);
        v.push(0x72);
        v.push(0x65);
        v.push(0x66);
        v.push(0x5f);
        v.push(0x64);
        v.push(0x72);
        v.push(0x6f);
        v.push(0x70);
    proof {
        reveal(spec_drop_export_name);
        assert(v@ =~= spec_drop_export_name());
    }
    v
}

/// The fixed export name of the synthesized backing table, as bytes.
pub fn table_export_name() -> (v: Vec<u8>)
    ensures
        v@ == spec_table_export_name(),
        v@.len() <= 0xFFFF_FFFF,
{
    let mut v: Vec<u8> = Vec::new();
        v.push(0x5f);
        v.push(0x5f);
        v.push(0x6c);
        v.push(0x75);
        v.push(0x6e);
        v.push(0x61);
        v.push(0x74);
        v.push(0x69);
        v.push(0x63);
        v.push(0x5f);
        v.push(0x65);
        v.push(0x78);
        v.push(0x74);
        v.push(0x65);
        v.push(0x72);
        v.push(0x6e);
        v.push(0x72);
        v.push(0x65);
        v.push(0x66);
        v.push(0x5f);
        v.push(0x72);
        v.push(0x65);
        v.push(0x73);
        v.push(0x6f);
        v.push(0x75);
        v.push(0x72);
        v.push(0x63);
        v.push(0x65);
        v.push(0x5f);
        v.push(0x74);
        v.push(0x61);
        v.push(0x62);
        v.push(0x6c);
        v.push(0x65);
    proof {
        reveal(spec_table_export_name);
        assert(v@ =~= spec_table_export_name());
    }
    v
}

/// Exclusive upper bound on the value of an integer read from at most `max`
/// unsigned little-endian base-128 bytes, the last limited to four bits.
pub open spec fn spec_leb_cap(max: nat) -> int
    decreases max,
{
    if max <= 1 {
        0x10
    } else {
        0x80 * spec_leb_cap((max - 1) as nat)
    }
}

/// Reads an unsigned little-endian base-128 integer of at most `max` bytes
/// at `pos`: the value and the position after it, or nothing where the
/// encoding is malformed (runs past the end, too long, or sets bits beyond
/// the 32nd).
pub open spec fn spec_leb(b: Seq<u8>, pos: int, max: nat) -> Option<(int, int)>
    decreases max,
{
    if max == 0 || pos < 0 || pos >= b.len() {
        None
    } else {
        let byte = b[pos];
        if byte < 0x80 {
            if max == 1 && byte >= 0x10 {
                None
            } else {
                Some((byte as int, pos + 1))
            }
        } else {
            match spec_leb(b, pos + 1, (max - 1) as nat) {
                Some(inner) => Some((byte as int - 0x80 + inner.0 * 0x80, inner.1)),
                None => None,
            }
        }
    }
}

pub proof fn lemma_leb_cap_at_least(max: nat)
    ensures
        spec_leb_cap(max) >= 0x10,
    decreases max,
{
    if max > 1 {
        lemma_leb_cap_at_least((max - 1) as nat);
    }
}

pub proof fn lemma_leb_cap_values()
    ensures
        spec_leb_cap(1) == 0x10,
        spec_leb_cap(2) == 0x800,
        spec_leb_cap(3) == 0x40000,
        spec_leb_cap(4) == 0x2000000,
        spec_leb_cap(5) == 0x100000000,
{
    reveal_with_fuel(spec_leb_cap, 6);
}

/// A successfully read integer is below the cap for its byte budget, and
/// the read consumes between one and `max` bytes.
pub proof fn lemma_leb_bounds(b: Seq<u8>, pos: int, max: nat)
    requires
        spec_leb(b, pos, max) is Some,
    ensures
        0 <= spec_leb(b, pos, max).unwrap().0 < spec_leb_cap(max),
        pos + 1 <= spec_leb(b, pos, max).unwrap().1 <= b.len(),
        spec_leb(b, pos, max).unwrap().1 - pos <= max,
    decreases max,
{
    let byte = b[pos];
    if byte < 0x80 {
        lemma_leb_cap_at_least(max);
        if max > 1 {
            assert(spec_leb_cap(max) == 0x80 * spec_leb_cap((max - 1) as nat));
            assert(spec_leb_cap(max) >= 0x80 * 0x10);
        }
    } else {
        lemma_leb_bounds(b, pos + 1, (max - 1) as nat);
    }
}

/// Reads an unsigned little-endian base-128 integer of at most `max` bytes,
/// exactly as the parsing model does.
pub(crate) fn leb_decode(b: &[u8], pos: usize, max: u8) -> (r: Option<(u32, usize)>)
    requires
        1 <= max <= 5,
    ensures
        match r {
            Some(v) => spec_leb(b@, pos as int, max as nat) == Some((v.0 as int, v.1 as int)),
            None => spec_leb(b@, pos as int, max as nat) is None,
        },
    decreases max,
{
    if pos >= b.len() {
        return None;
    }
    let byte = *slice_index_get(b, pos);
    if byte < 0x80 {
        if max == 1 && byte >= 0x10 {
            None
        } else {
            Some((byte as u32, pos + 1))
        }
    } else if max == 1 {
        None
    } else {
        match leb_decode(b, pos + 1, max - 1) {
            None => None,
            Some((v, end)) => {
                proof {
                    lemma_leb_bounds(b@, pos as int + 1, (max - 1) as nat);
                    lemma_leb_cap_values();
                    assert(spec_leb_cap((max - 1) as nat) <= 0x2000000);
                }
                Some(((byte - 0x80) as u32 + v * 0x80, end))
            },
        }
    }
}

/// Writes `n` as a minimal unsigned little-endian base-128 byte sequence.
pub open spec fn spec_leb_encode(n: nat) -> Seq<u8>
    decreases n,
{
    if n < 0x80 {
        seq![n as u8]
    } else {
        seq![(0x80 + n % 0x80) as u8] + spec_leb_encode(n / 0x80)
    }
}

/// Writes `n` exactly as the emission model does.
pub(crate) fn leb_encode(n: u32) -> (v: Vec<u8>)
    ensures
        v@ == spec_leb_encode(n as nat),
    decreases n,
{
    if n < 0x80 {
        let mut v: Vec<u8> = Vec::new();
        v.push(n as u8);
        proof {
            assert(v@ =~= spec_leb_encode(n as nat));
        }
        v
    } else {
        let mut v = leb_encode(n / 0x80);
        v.insert(0, (0x80 + n % 0x80) as u8);
        proof {
            assert(v@ =~= spec_leb_encode(n as nat));
        }
        v
    }
}

/// One section of a binary module: its id byte and its payload, without the
/// id and size bytes that frame it.
pub struct Section {
    pub id: u8,
    pub body: Vec<u8>,
}

/// Mathematical shape of a section.
pub ghost struct SectionView {
    pub id: u8,
    pub body: Seq<u8>,
}

impl View for Section {
    type V = SectionView;

    open spec fn view(&self) -> SectionView {
        SectionView { id: self.id, body: self.body@ }
    }
}

pub open spec fn secs_view(v: Seq<Section>) -> Seq<SectionView> {
    v.map_values(|s: Section| s@)
}

/// Splits the bytes from `pos` on into framed sections: id byte, size, then
/// that many payload bytes; or nothing where the framing is broken or a
/// section id is out of range.
pub open spec fn spec_sections_from(b: Seq<u8>, pos: int) -> Option<Seq<SectionView>>
    decreases b.len() - pos,
{
    if pos == b.len() {
        Some(Seq::empty())
    } else if !(0 <= pos < b.len()) {
        None
    } else {
        let id = b[pos];
        if id > 12 {
            None
        } else {
            match spec_leb(b, pos + 1, 5) {
                None => None,
                Some((size, p)) => if !(pos + 1 < p && 0 <= size && p + size <= b.len()) {
                    None
                } else {
                    match spec_sections_from(b, p + size) {
                        None => None,
                        Some(rest) => Some(
                            seq![SectionView { id, body: b.subrange(p, p + size) }] + rest,
                        ),
                    }
                },
            }
        }
    }
}

/// Splits the bytes from `pos` on, exactly as the parsing model does.
pub(crate) fn parse_sections_from(b: &[u8], pos: usize) -> (r: Option<Vec<Section>>)
    requires
        pos <= b@.len(),
    ensures
        match r {
            Some(v) => spec_sections_from(b@, pos as int) == Some(secs_view(v@)),
            None => spec_sections_from(b@, pos as int) is None,
        },
    decreases b@.len() - pos,
{
    if pos == b.len() {
        let v: Vec<Section> = Vec::new();
        proof {
            assert(secs_view(v@) =~= Seq::<SectionView>::empty());
        }
        return Some(v);
    }
    let id = *slice_index_get(b, pos);
    if id > 12 {
        return None;
    }
    match leb_decode(b, pos + 1, 5) {
        None => None,
        Some((size, p)) => {
            proof {
                lemma_leb_bounds(b@, pos as int + 1, 5);
            }
            if (size as usize) > b.len() - p {
                return None;
            }
            let body = slice_to_vec(slice_subrange(b, p, p + size as usize));
            match parse_sections_from(b, p + size as usize) {
                None => None,
                Some(rest) => {
                    let ghost rv = rest@;
                    let mut out = rest;
                    out.insert(0, Section { id, body });
                    proof {
                        assert(secs_view(out@) =~= seq![
                            SectionView { id, body: b@.subrange(p as int, p as int + size as int) },
                        ] + secs_view(rv));
                    }
                    Some(out)
                },
            }
        },
    }
}

/// The payload of the first section with the given id, if one is there.
pub open spec fn spec_find_section(secs: Seq<SectionView>, id: u8) -> Option<Seq<u8>>
    decreases secs.len(),
{
    if secs.len() == 0 {
        None
    } else if secs[0].id == id {
        Some(secs[0].body)
    } else {
        spec_find_section(secs.drop_first(), id)
    }
}

pub proof fn lemma_find_section_at(secs: Seq<SectionView>, id: u8, i: int)
    requires
        0 <= i < secs.len(),
        secs[i].id == id,
        forall|j: int| 0 <= j < i ==> #[trigger] secs[j].id != id,
    ensures
        spec_find_section(secs, id) == Some(secs[i].body),
    decreases i,
{
    if i > 0 {
        lemma_find_section_at(secs.drop_first(), id, i - 1);
    }
}

pub proof fn lemma_find_section_absent(secs: Seq<SectionView>, id: u8)
    requires
        forall|j: int| 0 <= j < secs.len() ==> #[trigger] secs[j].id != id,
    ensures
        spec_find_section(secs, id) is None,
    decreases secs.len(),
{
    if secs.len() > 0 {
        lemma_find_section_absent(secs.drop_first(), id);
    }
}

/// Index of the first section with the given id, if one is there.
pub(crate) fn find_section_index(secs: &Vec<Section>, id: u8) -> (r: Option<usize>)
    ensures
        match r {
            Some(i) => i < secs@.len() && secs@[i as int]@.id == id && spec_find_section(
                secs_view(secs@),
                id,
            ) == Some(secs@[i as int]@.body),
            None => spec_find_section(secs_view(secs@), id) is None,
        },
{
    let mut i: usize = 0;
    while i < secs.len()
        invariant
            i <= secs@.len(),
            forall|j: int| 0 <= j < i ==> #[trigger] secs@[j]@.id != id,
        decreases secs@.len() - i,
    {
        if secs[i].id == id {
            proof {
                lemma_find_section_at(secs_view(secs@), id, i as int);
            }
            return Some(i);
        }
        i = i + 1;
    }
    proof {
        lemma_find_section_absent(secs_view(secs@), id);
    }
    None
}

/// Whether the non-custom sections appear in strictly ascending id order,
/// as the module format requires; custom sections (id 0) may stand anywhere.
pub open spec fn spec_ids_ascending(secs: Seq<SectionView>) -> bool {
    forall|i: int, j: int|
        0 <= i < j < secs.len() && secs[i].id != 0 && secs[j].id != 0 ==> (#[trigger] secs[i].id)
            < (#[trigger] secs[j].id)
}

pub(crate) fn check_ids_ascending(secs: &Vec<Section>) -> (r: bool)
    ensures
        r == spec_ids_ascending(secs_view(secs@)),
{
    let mut i: usize = 0;
    let mut last: u8 = 0;
    while i < secs.len()
        invariant
            i <= secs@.len(),
            forall|p: int, q: int|
                0 <= p < q < i && secs@[p]@.id != 0 && secs@[q]@.id != 0 ==> (
                #[trigger] secs@[p]@.id) < (#[trigger] secs@[q]@.id),
            last == 0 ==> forall|p: int| 0 <= p < i ==> #[trigger] secs@[p]@.id == 0,
            last != 0 ==> forall|p: int| 0 <= p < i ==> #[trigger] secs@[p]@.id <= last,
            last != 0 ==> exists|p: int| 0 <= p < i && #[trigger] secs@[p]@.id == last,
        decreases secs@.len() - i,
    {
        let id = secs[i].id;
        if id != 0 {
            if last != 0 && id <= last {
                proof {
                    let sv = secs_view(secs@);
                    let q = choose|q: int| 0 <= q < i && #[trigger] secs@[q]@.id == last;
                    assert(sv[q].id == last && sv[i as int].id == id);
                }
                return false;
            }
            last = id;
            proof {
                assert(secs@[i as int]@.id == id);
            }
        }
        i = i + 1;
    }
    true
}

/// A function signature: parameter and result value types, one byte each.
pub struct FuncType {
    pub params: Vec<u8>,
    pub results: Vec<u8>,
}

/// Mathematical shape of a function signature.
pub ghost struct FuncTypeView {
    pub params: Seq<u8>,
    pub results: Seq<u8>,
}

impl View for FuncType {
    type V = FuncTypeView;

    open spec fn view(&self) -> FuncTypeView {
        FuncTypeView { params: self.params@, results: self.results@ }
    }
}

pub open spec fn types_view(v: Seq<FuncType>) -> Seq<FuncTypeView> {
    v.map_values(|t: FuncType| t@)
}

/// What an import brings in: a function of a declared signature, or a
/// table, memory or global whose details this pass does not need.
#[derive(Clone, Copy, PartialEq, Eq, Structural, Debug)]
pub enum ImportKind {
    Func { type_index: u32 },
    Table,
    Memory,
    Global,
}

/// One import: the namespace it comes from, its name there, and its kind.
pub struct Import {
    pub module: Vec<u8>,
    pub name: Vec<u8>,
    pub kind: ImportKind,
}

/// Mathematical shape of an import.
pub ghost struct ImportView {
    pub module: Seq<u8>,
    pub name: Seq<u8>,
    pub kind: ImportKind,
}

impl View for Import {
    type V = ImportView;

    open spec fn view(&self) -> ImportView {
        ImportView { module: self.module@, name: self.name@, kind: self.kind }
    }
}

pub open spec fn imports_view(v: Seq<Import>) -> Seq<ImportView> {
    v.map_values(|x: Import| x@)
}

/// The value-type bytes of the module format, the opaque-reference type
/// among them.
pub open spec fn spec_is_valtype(x: u8) -> bool {
    x == 0x7f || x == 0x7e || x == 0x7d || x == 0x7c || x == 0x7b || x == 0x70 || x == 0x6f
}

pub open spec fn spec_all_valtypes(s: Seq<u8>) -> bool {
    forall|i: int| 0 <= i < s.len() ==> spec_is_valtype(#[trigger] s[i])
}

/// Reads a length-prefixed run of value-type bytes.
pub open spec fn spec_parse_valtype_vec(b: Seq<u8>, pos: int) -> Option<(Seq<u8>, int)> {
    match spec_leb(b, pos, 5) {
        None => None,
        Some((n, p)) => if !(p + n <= b.len() && spec_all_valtypes(b.subrange(p, p + n))) {
            None
        } else {
            Some((b.subrange(p, p + n), p + n))
        },
    }
}

pub(crate) fn parse_valtype_vec(b: &[u8], pos: usize) -> (r: Option<(Vec<u8>, usize)>)
    ensures
        match r {
            Some(v) => spec_parse_valtype_vec(b@, pos as int) == Some((v.0@, v.1 as int)),
            None => spec_parse_valtype_vec(b@, pos as int) is None,
        },
{
    match leb_decode(b, pos, 5) {
        None => None,
        Some((n, p)) => {
            proof {
                lemma_leb_bounds(b@, pos as int, 5);
            }
            if (n as usize) > b.len() - p {
                return None;
            }
            let end = p + n as usize;
            let mut i: usize = p;
            while i < end
                invariant
                    p <= i <= end <= b@.len(),
                    end == p + n as usize,
                    spec_leb(b@, pos as int, 5) == Some((n as int, p as int)),
                    forall|k: int| p <= k < i ==> spec_is_valtype(#[trigger] b@[k]),
                decreases end - i,
            {
                let c = *slice_index_get(b, i);
                if !(c == 0x7f || c == 0x7e || c == 0x7d || c == 0x7c || c == 0x7b || c == 0x70
                    || c == 0x6f) {
                    proof {
                        assert(b@.subrange(p as int, end as int)[i - p] == b@[i as int]);
                    }
                    return None;
                }
                i = i + 1;
            }
            proof {
                assert forall|k: int| 0 <= k < n implies spec_is_valtype(
                    #[trigger] b@.subrange(p as int, end as int)[k],
                ) by {
                    assert(b@.subrange(p as int, end as int)[k] == b@[p + k]);
                }
            }
            Some((slice_to_vec(slice_subrange(b, p, end)), end))
        },
    }
}

/// Reads one function signature: the signature marker byte, then the
/// parameter and result type runs.
pub open spec fn spec_parse_functype(b: Seq<u8>, pos: int) -> Option<(FuncTypeView, int)> {
    if !(0 <= pos < b.len() && b[pos] == 0x60) {
        None
    } else {
        match spec_parse_valtype_vec(b, pos + 1) {
            None => None,
            Some((ps, p1)) => match spec_parse_valtype_vec(b, p1) {
                None => None,
                Some((rs, p2)) => Some((FuncTypeView { params: ps, results: rs }, p2)),
            },
        }
    }
}

pub(crate) fn parse_functype(b: &[u8], pos: usize) -> (r: Option<(FuncType, usize)>)
    ensures
        match r {
            Some(v) => spec_parse_functype(b@, pos as int) == Some((v.0@, v.1 as int)),
            None => spec_parse_functype(b@, pos as int) is None,
        },
{
    if pos >= b.len() {
        return None;
    }
    if *slice_index_get(b, pos) != 0x60 {
        return None;
    }
    let (params, p1) = match parse_valtype_vec(b, pos + 1) {
        None => return None,
        Some(x) => x,
    };
    let (results, p2) = match parse_valtype_vec(b, p1) {
        None => return None,
        Some(x) => x,
    };
    Some((FuncType { params, results }, p2))
}

/// Reads `n` function signatures in a row.
pub open spec fn spec_parse_functypes(b: Seq<u8>, pos: int, n: int) -> Option<(
    Seq<FuncTypeView>,
    int,
)>
    decreases n,
{
    if n <= 0 {
        Some((Seq::empty(), pos))
    } else {
        match spec_parse_functype(b, pos) {
            None => None,
            Some((t, p)) => match spec_parse_functypes(b, p, n - 1) {
                None => None,
                Some((ts, end)) => Some((seq![t] + ts, end)),
            },
        }
    }
}

pub(crate) fn parse_functypes(b: &[u8], pos: usize, n: u32) -> (r: Option<(Vec<FuncType>, usize)>)
    ensures
        match r {
            Some(v) => spec_parse_functypes(b@, pos as int, n as int) == Some((
                types_view(v.0@),
                v.1 as int,
            )),
            None => spec_parse_functypes(b@, pos as int, n as int) is None,
        },
    decreases n,
{
    if n == 0 {
        let v: Vec<FuncType> = Vec::new();
        proof {
            assert(types_view(v@) =~= Seq::<FuncTypeView>::empty());
        }
        return Some((v, pos));
    }
    let (t, p) = match parse_functype(b, pos) {
        None => return None,
        Some(x) => x,
    };
    match parse_functypes(b, p, n - 1) {
        None => None,
        Some((rest, end)) => {
            let ghost rv = rest@;
            let mut out = rest;
            out.insert(0, t);
            proof {
                assert(types_view(out@) =~= seq![out@[0]@] + types_view(rv));
            }
            Some((out, end))
        },
    }
}

/// Reads a whole type section payload: a count, then that many signatures,
/// filling the payload exactly.
pub open spec fn spec_parse_types(body: Seq<u8>) -> Option<Seq<FuncTypeView>> {
    match spec_leb(body, 0, 5) {
        None => None,
        Some((n, p)) => match spec_parse_functypes(body, p, n) {
            None => None,
            Some((ts, end)) => if end == body.len() {
                Some(ts)
            } else {
                None
            },
        },
    }
}

pub(crate) fn parse_types(body: &Vec<u8>) -> (r: Option<Vec<FuncType>>)
    ensures
        match r {
            Some(v) => spec_parse_types(body@) == Some(types_view(v@)),
            None => spec_parse_types(body@) is None,
        },
{
    match leb_decode(body.as_slice(), 0, 5) {
        None => None,
        Some((n, p)) => match parse_functypes(body.as_slice(), p, n) {
            None => None,
            Some((ts, end)) => if end == body.len() {
                Some(ts)
            } else {
                None
            },
        },
    }
}

/// Reads a length-prefixed name: its bytes and the position after them.
pub open spec fn spec_parse_name(b: Seq<u8>, pos: int) -> Option<(Seq<u8>, int)> {
    match spec_leb(b, pos, 5) {
        None => None,
        Some((n, p)) => if p + n > b.len() {
            None
        } else {
            Some((b.subrange(p, p + n), p + n))
        },
    }
}

pub(crate) fn parse_name(b: &[u8], pos: usize) -> (r: Option<(Vec<u8>, usize)>)
    ensures
        match r {
            Some(v) => spec_parse_name(b@, pos as int) == Some((v.0@, v.1 as int)),
            None => spec_parse_name(b@, pos as int) is None,
        },
{
    match leb_decode(b, pos, 5) {
        None => None,
        Some((n, p)) => {
            proof {
                lemma_leb_bounds(b@, pos as int, 5);
            }
            if (n as usize) > b.len() - p {
                return None;
            }
            let end = p + n as usize;
            Some((slice_to_vec(slice_subrange(b, p, end)), end))
        },
    }
}

/// Reads table or memory limits: a flag byte, then one bound or two.
pub open spec fn spec_parse_limits(b: Seq<u8>, pos: int) -> Option<int> {
    if !(0 <= pos < b.len()) {
        None
    } else if b[pos] == 0 {
        match spec_leb(b, pos + 1, 5) {
            None => None,
            Some((_, p)) => Some(p),
        }
    } else if b[pos] == 1 {
        match spec_leb(b, pos + 1, 5) {
            None => None,
            Some((_, p)) => match spec_leb(b, p, 5) {
                None => None,
                Some((_, p2)) => Some(p2),
            },
        }
    } else {
        None
    }
}

pub(crate) fn parse_limits(b: &[u8], pos: usize) -> (r: Option<usize>)
    ensures
        match r {
            Some(end) => spec_parse_limits(b@, pos as int) == Some(end as int),
            None => spec_parse_limits(b@, pos as int) is None,
        },
{
    if pos >= b.len() {
        return None;
    }
    let flag = *slice_index_get(b, pos);
    if flag == 0 {
        match leb_decode(b, pos + 1, 5) {
            None => None,
            Some((_, p)) => Some(p),
        }
    } else if flag == 1 {
        match leb_decode(b, pos + 1, 5) {
            None => None,
            Some((_, p)) => match leb_decode(b, p, 5) {
                None => None,
                Some((_, p2)) => Some(p2),
            },
        }
    } else {
        None
    }
}

/// Reads what one import declares: a function with its signature index, or
/// a table, memory or global, whose shapes are checked and skipped.
pub open spec fn spec_parse_importdesc(b: Seq<u8>, pos: int) -> Option<(ImportKind, int)> {
    if !(0 <= pos < b.len()) {
        None
    } else {
        let d = b[pos];
        if d == 0 {
            match spec_leb(b, pos + 1, 5) {
                None => None,
                Some((t, p)) => Some((ImportKind::Func { type_index: t as u32 }, p)),
            }
        } else if d == 1 {
            if !(pos + 1 < b.len() && (b[pos + 1] == 0x70 || b[pos + 1] == 0x6f)) {
                None
            } else {
                match spec_parse_limits(b, pos + 2) {
                    None => None,
                    Some(p) => Some((ImportKind::Table, p)),
                }
            }
        } else if d == 2 {
            match spec_parse_limits(b, pos + 1) {
                None => None,
                Some(p) => Some((ImportKind::Memory, p)),
            }
        } else if d == 3 {
            if !(pos + 2 < b.len() && spec_is_valtype(b[pos + 1]) && b[pos + 2] <= 1) {
                None
            } else {
                Some((ImportKind::Global, pos + 3))
            }
        } else {
            None
        }
    }
}

pub(crate) fn parse_importdesc(b: &[u8], pos: usize) -> (r: Option<(ImportKind, usize)>)
    ensures
        match r {
            Some(v) => spec_parse_importdesc(b@, pos as int) == Some((v.0, v.1 as int)),
            None => spec_parse_importdesc(b@, pos as int) is None,
        },
{
    if pos >= b.len() {
        return None;
    }
    let d = *slice_index_get(b, pos);
    if d == 0 {
        match leb_decode(b, pos + 1, 5) {
            None => None,
            Some((t, p)) => Some((ImportKind::Func { type_index: t }, p)),
        }
    } else if d == 1 {
        if pos + 1 >= b.len() {
            return None;
        }
        let rt = *slice_index_get(b, pos + 1);
        if !(rt == 0x70 || rt == 0x6f) {
            return None;
        }
        match parse_limits(b, pos + 2) {
            None => None,
            Some(p) => Some((ImportKind::Table, p)),
        }
    } else if d == 2 {
        match parse_limits(b, pos + 1) {
            None => None,
            Some(p) => Some((ImportKind::Memory, p)),
        }
    } else if d == 3 {
        if b.len() - pos <= 2 {
            return None;
        }
        let vt = *slice_index_get(b, pos + 1);
        let mu = *slice_index_get(b, pos + 2);
        if !(vt == 0x7f || vt == 0x7e || vt == 0x7d || vt == 0x7c || vt == 0x7b || vt == 0x70
            || vt == 0x6f) {
            return None;
        }
        if mu > 1 {
            return None;
        }
        Some((ImportKind::Global, pos + 3))
    } else {
        None
    }
}

/// Reads one import: namespace, name, and what it declares.
pub open spec fn spec_parse_import(b: Seq<u8>, pos: int) -> Option<(ImportView, int)> {
    match spec_parse_name(b, pos) {
        None => None,
        Some((module, p1)) => match spec_parse_name(b, p1) {
            None => None,
            Some((name, p2)) => match spec_parse_importdesc(b, p2) {
                None => None,
                Some((kind, p3)) => Some((ImportView { module, name, kind }, p3)),
            },
        },
    }
}

pub(crate) fn parse_import(b: &[u8], pos: usize) -> (r: Option<(Import, usize)>)
    ensures
        match r {
            Some(v) => spec_parse_import(b@, pos as int) == Some((v.0@, v.1 as int)),
            None => spec_parse_import(b@, pos as int) is None,
        },
{
    let (module, p1) = match parse_name(b, pos) {
        None => return None,
        Some(x) => x,
    };
    let (name, p2) = match parse_name(b, p1) {
        None => return None,
        Some(x) => x,
    };
    let (kind, p3) = match parse_importdesc(b, p2) {
        None => return None,
        Some(x) => x,
    };
    Some((Import { module, name, kind }, p3))
}

/// Reads `n` imports in a row.
pub open spec fn spec_parse_imports_n(b: Seq<u8>, pos: int, n: int) -> Option<(
    Seq<ImportView>,
    int,
)>
    decreases n,
{
    if n <= 0 {
        Some((Seq::empty(), pos))
    } else {
        match spec_parse_import(b, pos) {
            None => None,
            Some((im, p)) => match spec_parse_imports_n(b, p, n - 1) {
                None => None,
                Some((ims, end)) => Some((seq![im] + ims, end)),
            },
        }
    }
}

pub(crate) fn parse_imports_n(b: &[u8], pos: usize, n: u32) -> (r: Option<(Vec<Import>, usize)>)
    ensures
        match r {
            Some(v) => spec_parse_imports_n(b@, pos as int, n as int) == Some((
                imports_view(v.0@),
                v.1 as int,
            )),
            None => spec_parse_imports_n(b@, pos as int, n as int) is None,
        },
    decreases n,
{
    if n == 0 {
        let v: Vec<Import> = Vec::new();
        proof {
            assert(imports_view(v@) =~= Seq::<ImportView>::empty());
        }
        return Some((v, pos));
    }
    let (im, p) = match parse_import(b, pos) {
        None => return None,
        Some(x) => x,
    };
    match parse_imports_n(b, p, n - 1) {
        None => None,
        Some((rest, end)) => {
            let ghost rv = rest@;
            let mut out = rest;
            out.insert(0, im);
            proof {
                assert(imports_view(out@) =~= seq![out@[0]@] + imports_view(rv));
            }
            Some((out, end))
        },
    }
}

/// Reads a whole import section payload: a count, then that many imports,
/// filling the payload exactly.
pub open spec fn spec_parse_imports(body: Seq<u8>) -> Option<Seq<ImportView>> {
    match spec_leb(body, 0, 5) {
        None => None,
        Some((n, p)) => match spec_parse_imports_n(body, p, n) {
            None => None,
            Some((ims, end)) => if end == body.len() {
                Some(ims)
            } else {
                None
            },
        },
    }
}

pub(crate) fn parse_imports(body: &Vec<u8>) -> (r: Option<Vec<Import>>)
    ensures
        match r {
            Some(v) => spec_parse_imports(body@) == Some(imports_view(v@)),
            None => spec_parse_imports(body@) is None,
        },
{
    match leb_decode(body.as_slice(), 0, 5) {
        None => None,
        Some((n, p)) => match parse_imports_n(body.as_slice(), p, n) {
            None => None,
            Some((ims, end)) => if end == body.len() {
                Some(ims)
            } else {
                None
            },
        },
    }
}

/// The module preamble: magic bytes, then format version one.
pub open spec fn spec_header() -> Seq<u8> {
    seq![0x00u8, 0x61, 0x73, 0x6d, 0x01, 0x00, 0x00, 0x00]
}

pub open spec fn spec_header_ok(b: Seq<u8>) -> bool {
    b.len() >= 8 && b.subrange(0, 8) == spec_header()
}

pub(crate) fn check_header(b: &[u8]) -> (r: bool)
    ensures
        r == spec_header_ok(b@),
{
    if b.len() < 8 {
        return false;
    }
    let r = *slice_index_get(b, 0) == 0x00 && *slice_index_get(b, 1) == 0x61 && *slice_index_get(
        b,
        2,
    ) == 0x73 && *slice_index_get(b, 3) == 0x6d && *slice_index_get(b, 4) == 0x01
        && *slice_index_get(b, 5) == 0x00 && *slice_index_get(b, 6) == 0x00 && *slice_index_get(
        b,
        7,
    ) == 0x00;
    proof {
        let h = b@.subrange(0, 8);
        assert(h[0] == b@[0] && h[1] == b@[1] && h[2] == b@[2] && h[3] == b@[3] && h[4] == b@[4]
            && h[5] == b@[5] && h[6] == b@[6] && h[7] == b@[7]);
        if r {
            assert(h =~= spec_header());
        }
    }
    r
}

/// The leading entry count of the section with this id: zero when the
/// section is absent, nothing when it is there but its count is unreadable.
pub open spec fn spec_section_count(secs: Seq<SectionView>, id: u8) -> Option<int> {
    match spec_find_section(secs, id) {
        None => Some(0),
        Some(body) => match spec_leb(body, 0, 5) {
            None => None,
            Some((n, _)) => Some(n),
        },
    }
}

pub(crate) fn section_count(secs: &Vec<Section>, id: u8) -> (r: Option<u32>)
    ensures
        match r {
            Some(n) => spec_section_count(secs_view(secs@), id) == Some(n as int),
            None => spec_section_count(secs_view(secs@), id) is None,
        },
{
    match find_section_index(secs, id) {
        None => Some(0),
        Some(i) => match leb_decode(secs[i].body.as_slice(), 0, 5) {
            None => None,
            Some((n, _)) => Some(n),
        },
    }
}

/// Whether every function import's signature index refers to a parsed
/// signature.
pub open spec fn spec_type_indices_ok(imports: Seq<ImportView>, n_types: int) -> bool {
    forall|i: int|
        0 <= i < imports.len() ==> ((#[trigger] imports[i].kind) matches ImportKind::Func {
            type_index,
        } ==> type_index < n_types)
}

pub(crate) fn check_type_indices(imports: &Vec<Import>, n_types: usize) -> (r: bool)
    ensures
        r == spec_type_indices_ok(imports_view(imports@), n_types as int),
{
    let mut i: usize = 0;
    while i < imports.len()
        invariant
            i <= imports@.len(),
            forall|j: int|
                0 <= j < i ==> ((#[trigger] imports_view(imports@)[j].kind)
                    matches ImportKind::Func { type_index } ==> type_index < n_types as int),
        decreases imports@.len() - i,
    {
        match imports[i].kind {
            ImportKind::Func { type_index } => {
                if type_index as usize >= n_types {
                    proof {
                        assert(imports_view(imports@)[i as int].kind == ImportKind::Func {
                            type_index,
                        });
                    }
                    return false;
                }
            },
            _ => {},
        }
        proof {
            assert(imports_view(imports@)[i as int].kind == imports@[i as int].kind);
        }
        i = i + 1;
    }
    true
}

/// Everything this pass reads out of a module: its sections, its function
/// signatures and imports, and the entry counts of the sections whose
/// index spaces the patch extends.
pub ghost struct ParsedModule {
    pub sections: Seq<SectionView>,
    pub types: Seq<FuncTypeView>,
    pub imports: Seq<ImportView>,
    pub n_defined_funcs: int,
    pub n_local_tables: int,
    pub n_local_memories: int,
    pub n_local_globals: int,
}

pub struct Parsed {
    pub sections: Vec<Section>,
    pub types: Vec<FuncType>,
    pub imports: Vec<Import>,
    pub n_defined_funcs: u32,
    pub n_local_tables: u32,
    pub n_local_memories: u32,
    pub n_local_globals: u32,
}

impl View for Parsed {
    type V = ParsedModule;

    open spec fn view(&self) -> ParsedModule {
        ParsedModule {
            sections: secs_view(self.sections@),
            types: types_view(self.types@),
            imports: imports_view(self.imports@),
            n_defined_funcs: self.n_defined_funcs as int,
            n_local_tables: self.n_local_tables as int,
            n_local_memories: self.n_local_memories as int,
            n_local_globals: self.n_local_globals as int,
        }
    }
}

/// Reads a whole module: the preamble, the section framing in ascending id
/// order, the type and import sections in full, and the entry counts of
/// the function, table, memory, global, export and code sections — the
/// counts whose index spaces the patch extends. The contents behind those
/// counts are carried through untouched, not validated.
pub open spec fn spec_parse(b: Seq<u8>) -> Option<ParsedModule> {
    if !spec_header_ok(b) {
        None
    } else {
        match spec_sections_from(b, 8) {
            None => None,
            Some(secs) => if !spec_ids_ascending(secs) {
                None
            } else {
                let types_opt = match spec_find_section(secs, 1) {
                    None => Some(Seq::<FuncTypeView>::empty()),
                    Some(body) => spec_parse_types(body),
                };
                match types_opt {
                    None => None,
                    Some(types) => {
                        let imports_opt = match spec_find_section(secs, 2) {
                            None => Some(Seq::<ImportView>::empty()),
                            Some(body) => spec_parse_imports(body),
                        };
                        match imports_opt {
                            None => None,
                            Some(imports) => if !spec_type_indices_ok(
                                imports,
                                types.len() as int,
                            ) {
                                None
                            } else {
                                match spec_section_count(secs, 3) {
                                    None => None,
                                    Some(nd) => match spec_section_count(secs, 4) {
                                        None => None,
                                        Some(nt) => match spec_section_count(secs, 5) {
                                            None => None,
                                            Some(nm) => match spec_section_count(secs, 6) {
                                                None => None,
                                                Some(ng) => match spec_section_count(secs, 7) {
                                                    None => None,
                                                    Some(_) => match spec_section_count(secs, 10) {
                                                        None => None,
                                                        Some(_) => Some(
                                                            ParsedModule {
                                                                sections: secs,
                                                                types,
                                                                imports,
                                                                n_defined_funcs: nd,
                                                                n_local_tables: nt,
                                                                n_local_memories: nm,
                                                                n_local_globals: ng,
                                                            },
                                                        ),
                                                    },
                                                },
                                            },
                                        },
                                    },
                                }
                            },
                        }
                    },
                }
            },
        }
    }
}

pub(crate) fn parse_module(b: &[u8]) -> (r: Option<Parsed>)
    ensures
        match r {
            Some(p) => spec_parse(b@) == Some(p@) && spec_ids_ascending(p@.sections)
                && spec_type_indices_ok(p@.imports, p@.types.len() as int) && spec_sections_from(
                b@,
                8,
            ) == Some(p@.sections),
            None => spec_parse(b@) is None,
        },
{
    if !check_header(b) {
        return None;
    }
    let sections = match parse_sections_from(b, 8) {
        None => return None,
        Some(s) => s,
    };
    if !check_ids_ascending(&sections) {
        return None;
    }
    let types: Vec<FuncType> = match find_section_index(&sections, 1) {
        None => {
            let v: Vec<FuncType> = Vec::new();
            proof {
                assert(types_view(v@) =~= Seq::<FuncTypeView>::empty());
            }
            v
        },
        Some(i) => match parse_types(&sections[i].body) {
            None => return None,
            Some(t) => t,
        },
    };
    let imports: Vec<Import> = match find_section_index(&sections, 2) {
        None => {
            let v: Vec<Import> = Vec::new();
            proof {
                assert(imports_view(v@) =~= Seq::<ImportView>::empty());
            }
            v
        },
        Some(i) => match parse_imports(&sections[i].body) {
            None => return None,
            Some(t) => t,
        },
    };
    if !check_type_indices(&imports, types.len()) {
        return None;
    }
    let n_defined_funcs = match section_count(&sections, 3) {
        None => return None,
        Some(n) => n,
    };
    let n_local_tables = match section_count(&sections, 4) {
        None => return None,
        Some(n) => n,
    };
    let n_local_memories = match section_count(&sections, 5) {
        None => return None,
        Some(n) => n,
    };
    let n_local_globals = match section_count(&sections, 6) {
        None => return None,
        Some(n) => n,
    };
    if section_count(&sections, 7).is_none() {
        return None;
    }
    if section_count(&sections, 10).is_none() {
        return None;
    }
    Some(Parsed {
        sections,
        types,
        imports,
        n_defined_funcs,
        n_local_tables,
        n_local_memories,
        n_local_globals,
    })
}

/// The opaque-reference value type at the bridge's boundary.
pub open spec fn spec_externref() -> u8 {
    0x6f
}

/// Whether a signature mentions the opaque-reference value type in
/// parameter or result position.
pub open spec fn spec_type_uses_externref(t: FuncTypeView) -> bool {
    t.params.contains(spec_externref()) || t.results.contains(spec_externref())
}

/// The signature index a function import declares; zero for other kinds.
pub open spec fn spec_func_type_index(k: ImportKind) -> int {
    match k {
        ImportKind::Func { type_index } => type_index as int,
        _ => 0,
    }
}

/// Whether import `i` crosses the handle bridge: a function import from
/// the runtime's own host namespace, or one whose declared signature
/// mentions the opaque-reference type where the ABI passes integer handles.
pub open spec fn spec_import_qualifies(m: ParsedModule, i: int) -> bool {
    &&& 0 <= i < m.imports.len()
    &&& m.imports[i].kind is Func
    &&& (m.imports[i].module == spec_host_namespace() || (0 <= spec_func_type_index(
        m.imports[i].kind,
    ) < m.types.len() && spec_type_uses_externref(
        m.types[spec_func_type_index(m.imports[i].kind)],
    )))
}

/// Whether the module has any import that needs the handle bridge.
pub open spec fn spec_needs_patch(m: ParsedModule) -> bool {
    exists|i: int| spec_import_qualifies(m, i)
}

/// Whether import `i` has a shape the patcher does not bridge: an opaque
/// reference among several results.
pub open spec fn spec_import_unsupported(m: ParsedModule, i: int) -> bool {
    &&& spec_import_qualifies(m, i)
    &&& 0 <= spec_func_type_index(m.imports[i].kind) < m.types.len()
    &&& m.types[spec_func_type_index(m.imports[i].kind)].results.len() > 1
    &&& m.types[spec_func_type_index(m.imports[i].kind)].results.contains(spec_externref())
}

pub open spec fn spec_has_unsupported(m: ParsedModule) -> bool {
    exists|i: int| spec_import_unsupported(m, i)
}

/// The namespace and name of every qualifying import among the first `n`,
/// in module order.
pub open spec fn spec_qualifying_names(m: ParsedModule, n: int) -> Seq<ImportNameView>
    decreases n,
{
    if n <= 0 {
        Seq::empty()
    } else {
        spec_qualifying_names(m, n - 1) + if spec_import_qualifies(m, n - 1) {
            seq![ImportNameView { module: m.imports[n - 1].module, name: m.imports[n - 1].name }]
        } else {
            Seq::empty()
        }
    }
}

/// How many of the imports bring in a function.
pub open spec fn spec_count_func_imports(imports: Seq<ImportView>, n: int) -> int
    decreases n,
{
    if n <= 0 {
        0
    } else {
        spec_count_func_imports(imports, n - 1) + if imports[n - 1].kind is Func {
            1int
        } else {
            0int
        }
    }
}

/// How many of the imports bring in a table.
pub open spec fn spec_count_table_imports(imports: Seq<ImportView>, n: int) -> int
    decreases n,
{
    if n <= 0 {
        0
    } else {
        spec_count_table_imports(imports, n - 1) + if imports[n - 1].kind is Table {
            1int
        } else {
            0int
        }
    }
}

/// How many of the imports bring in a memory.
pub open spec fn spec_count_memory_imports(imports: Seq<ImportView>, n: int) -> int
    decreases n,
{
    if n <= 0 {
        0
    } else {
        spec_count_memory_imports(imports, n - 1) + if imports[n - 1].kind is Memory {
            1int
        } else {
            0int
        }
    }
}

/// How many of the imports bring in a global.
pub open spec fn spec_count_global_imports(imports: Seq<ImportView>, n: int) -> int
    decreases n,
{
    if n <= 0 {
        0
    } else {
        spec_count_global_imports(imports, n - 1) + if imports[n - 1].kind is Global {
            1int
        } else {
            0int
        }
    }
}

pub proof fn lemma_count_imports_in_range(imports: Seq<ImportView>, n: int)
    requires
        n >= 0,
    ensures
        0 <= spec_count_func_imports(imports, n) <= n,
        0 <= spec_count_table_imports(imports, n) <= n,
        0 <= spec_count_memory_imports(imports, n) <= n,
        0 <= spec_count_global_imports(imports, n) <= n,
    decreases n,
{
    if n > 0 {
        lemma_count_imports_in_range(imports, n - 1);
    }
}

/// A namespace-and-name pair of an import that needs handle translation.
pub struct ImportName {
    pub module: Vec<u8>,
    pub name: Vec<u8>,
}

/// Mathematical shape of such a pair.
pub ghost struct ImportNameView {
    pub module: Seq<u8>,
    pub name: Seq<u8>,
}

impl View for ImportName {
    type V = ImportNameView;

    open spec fn view(&self) -> ImportNameView {
        ImportNameView { module: self.module@, name: self.name@ }
    }
}

pub open spec fn names_view(v: Seq<ImportName>) -> Seq<ImportNameView> {
    v.map_values(|x: ImportName| x@)
}

pub(crate) fn contains_byte(v: &Vec<u8>, x: u8) -> (r: bool)
    ensures
        r == v@.contains(x),
{
    let mut i: usize = 0;
    while i < v.len()
        invariant
            i <= v@.len(),
            forall|j: int| 0 <= j < i ==> #[trigger] v@[j] != x,
        decreases v@.len() - i,
    {
        if v[i] == x {
            return true;
        }
        i = i + 1;
    }
    proof {
        if v@.contains(x) {
            let j = choose|j: int| 0 <= j < v@.len() && v@[j] == x;
            assert(v@[j] != x);
        }
    }
    false
}

pub(crate) fn is_host_namespace(v: &Vec<u8>) -> (r: bool)
    ensures
        r == (v@ == spec_host_namespace()),
{
    if v.len() != 7 {
        proof {
            assert(spec_host_namespace().len() == 7);
        }
        return false;
    }
    let r = v[0] == 0x6c && v[1] == 0x75 && v[2] == 0x6e && v[3] == 0x61 && v[4] == 0x74 && v[5]
        == 0x69 && v[6] == 0x63;
    proof {
        if r {
            assert(v@ =~= spec_host_namespace());
        } else {
            if v@ == spec_host_namespace() {
                assert(v@[0] == 0x6c && v@[1] == 0x75 && v@[2] == 0x6e && v@[3] == 0x61 && v@[4]
                    == 0x74 && v@[5] == 0x69 && v@[6] == 0x63);
            }
        }
    }
    r
}

pub(crate) fn import_qualifies(p: &Parsed, i: usize) -> (r: bool)
    requires
        i < p.imports@.len(),
        spec_type_indices_ok(imports_view(p.imports@), types_view(p.types@).len() as int),
    ensures
        r == spec_import_qualifies(p@, i as int),
{
    match p.imports[i].kind {
        ImportKind::Func { type_index } => {
            if is_host_namespace(&p.imports[i].module) {
                true
            } else {
                proof {
                    assert(imports_view(p.imports@)[i as int].kind == ImportKind::Func {
                        type_index,
                    });
                }
                let t = &p.types[type_index as usize];
                contains_byte(&t.params, 0x6f) || contains_byte(&t.results, 0x6f)
            }
        },
        _ => false,
    }
}

pub(crate) fn import_unsupported(p: &Parsed, i: usize) -> (r: bool)
    requires
        i < p.imports@.len(),
        spec_type_indices_ok(imports_view(p.imports@), types_view(p.types@).len() as int),
    ensures
        r == spec_import_unsupported(p@, i as int),
{
    if !import_qualifies(p, i) {
        return false;
    }
    match p.imports[i].kind {
        ImportKind::Func { type_index } => {
            proof {
                assert(imports_view(p.imports@)[i as int].kind == ImportKind::Func { type_index });
            }
            let t = &p.types[type_index as usize];
            t.results.len() > 1 && contains_byte(&t.results, 0x6f)
        },
        _ => false,
    }
}

pub(crate) fn any_qualifying(p: &Parsed) -> (r: bool)
    requires
        spec_type_indices_ok(imports_view(p.imports@), types_view(p.types@).len() as int),
    ensures
        r == spec_needs_patch(p@),
{
    let mut i: usize = 0;
    while i < p.imports.len()
        invariant
            i <= p.imports@.len(),
            spec_type_indices_ok(imports_view(p.imports@), types_view(p.types@).len() as int),
            forall|j: int| 0 <= j < i ==> !spec_import_qualifies(p@, j),
        decreases p.imports@.len() - i,
    {
        if import_qualifies(p, i) {
            return true;
        }
        i = i + 1;
    }
    proof {
        if spec_needs_patch(p@) {
            let j = choose|j: int| spec_import_qualifies(p@, j);
            assert(!spec_import_qualifies(p@, j));
        }
    }
    false
}

pub(crate) fn any_unsupported(p: &Parsed) -> (r: bool)
    requires
        spec_type_indices_ok(imports_view(p.imports@), types_view(p.types@).len() as int),
    ensures
        r == spec_has_unsupported(p@),
{
    let mut i: usize = 0;
    while i < p.imports.len()
        invariant
            i <= p.imports@.len(),
            spec_type_indices_ok(imports_view(p.imports@), types_view(p.types@).len() as int),
            forall|j: int| 0 <= j < i ==> !spec_import_unsupported(p@, j),
        decreases p.imports@.len() - i,
    {
        if import_unsupported(p, i) {
            return true;
        }
        i = i + 1;
    }
    proof {
        if spec_has_unsupported(p@) {
            let j = choose|j: int| spec_import_unsupported(p@, j);
            assert(!spec_import_unsupported(p@, j));
        }
    }
    false
}

pub(crate) fn qualifying_names(p: &Parsed) -> (r: Vec<ImportName>)
    requires
        spec_type_indices_ok(imports_view(p.imports@), types_view(p.types@).len() as int),
    ensures
        names_view(r@) == spec_qualifying_names(p@, p@.imports.len() as int),
{
    let mut out: Vec<ImportName> = Vec::new();
    proof {
        assert(names_view(out@) =~= spec_qualifying_names(p@, 0));
    }
    let mut i: usize = 0;
    while i < p.imports.len()
        invariant
            i <= p.imports@.len(),
            spec_type_indices_ok(imports_view(p.imports@), types_view(p.types@).len() as int),
            names_view(out@) == spec_qualifying_names(p@, i as int),
        decreases p.imports@.len() - i,
    {
        let ghost prev = out@;
        if import_qualifies(p, i) {
            let module = slice_to_vec(p.imports[i].module.as_slice());
            let name = slice_to_vec(p.imports[i].name.as_slice());
            out.push(ImportName { module, name });
            proof {
                assert(names_view(out@) =~= names_view(prev) + seq![
                    ImportNameView {
                        module: p@.imports[i as int].module,
                        name: p@.imports[i as int].name,
                    },
                ]);
            }
        } else {
            proof {
                assert(names_view(out@) =~= spec_qualifying_names(p@, i as int) + Seq::empty());
            }
        }
        i = i + 1;
    }
    out
}

pub(crate) fn count_func_imports(imports: &Vec<Import>) -> (r: usize)
    ensures
        r as int == spec_count_func_imports(imports_view(imports@), imports@.len() as int),
{
    let mut i: usize = 0;
    let mut count: usize = 0;
    while i < imports.len()
        invariant
            i <= imports@.len(),
            count <= i,
            count as int == spec_count_func_imports(imports_view(imports@), i as int),
        decreases imports@.len() - i,
    {
        match imports[i].kind {
            ImportKind::Func { .. } => {
                proof {
                    assert(imports_view(imports@)[i as int].kind == imports@[i as int].kind);
                }
                count = count + 1;
            },
            _ => {
                proof {
                    assert(imports_view(imports@)[i as int].kind == imports@[i as int].kind);
                }
            },
        }
        i = i + 1;
    }
    count
}

pub(crate) fn count_table_imports(imports: &Vec<Import>) -> (r: usize)
    ensures
        r as int == spec_count_table_imports(imports_view(imports@), imports@.len() as int),
{
    let mut i: usize = 0;
    let mut count: usize = 0;
    while i < imports.len()
        invariant
            i <= imports@.len(),
            count <= i,
            count as int == spec_count_table_imports(imports_view(imports@), i as int),
        decreases imports@.len() - i,
    {
        match imports[i].kind {
            ImportKind::Table => {
                proof {
                    assert(imports_view(imports@)[i as int].kind == imports@[i as int].kind);
                }
                count = count + 1;
            },
            _ => {
                proof {
                    assert(imports_view(imports@)[i as int].kind == imports@[i as int].kind);
                }
            },
        }
        i = i + 1;
    }
    count
}

pub(crate) fn count_memory_imports(imports: &Vec<Import>) -> (r: usize)
    ensures
        r as int == spec_count_memory_imports(imports_view(imports@), imports@.len() as int),
{
    let mut i: usize = 0;
    let mut count: usize = 0;
    while i < imports.len()
        invariant
            i <= imports@.len(),
            count <= i,
            count as int == spec_count_memory_imports(imports_view(imports@), i as int),
        decreases imports@.len() - i,
    {
        match imports[i].kind {
            ImportKind::Memory => {
                proof {
                    assert(imports_view(imports@)[i as int].kind == imports@[i as int].kind);
                }
                count = count + 1;
            },
            _ => {
                proof {
                    assert(imports_view(imports@)[i as int].kind == imports@[i as int].kind);
                }
            },
        }
        i = i + 1;
    }
    count
}

pub(crate) fn count_global_imports(imports: &Vec<Import>) -> (r: usize)
    ensures
        r as int == spec_count_global_imports(imports_view(imports@), imports@.len() as int),
{
    let mut i: usize = 0;
    let mut count: usize = 0;
    while i < imports.len()
        invariant
            i <= imports@.len(),
            count <= i,
            count as int == spec_count_global_imports(imports_view(imports@), i as int),
        decreases imports@.len() - i,
    {
        match imports[i].kind {
            ImportKind::Global => {
                proof {
                    assert(imports_view(imports@)[i as int].kind == imports@[i as int].kind);
                }
                count = count + 1;
            },
            _ => {
                proof {
                    assert(imports_view(imports@)[i as int].kind == imports@[i as int].kind);
                }
            },
        }
        i = i + 1;
    }
    count
}

/// Appends a copy of `src` to `dst`.
pub(crate) fn push_bytes(dst: &mut Vec<u8>, src: &[u8])
    ensures
        final(dst)@ == old(dst)@ + src@,
{
    let mut copy = slice_to_vec(src);
    dst.append(&mut copy);
}

/// The two signatures appended to the type section: save takes an opaque
/// reference and returns an integer handle; drop takes a handle.
pub open spec fn spec_type_tail() -> Seq<u8> {
    seq![0x60u8, 0x01, 0x6f, 0x01, 0x7f, 0x60, 0x01, 0x7f, 0x00]
}

pub(crate) fn type_section_tail() -> (v: Vec<u8>)
    ensures
        v@ == spec_type_tail(),
{
    let mut v: Vec<u8> = Vec::new();
    v.push(0x60);
    v.push(0x01);
    v.push(0x6f);
    v.push(0x01);
    v.push(0x7f);
    v.push(0x60);
    v.push(0x01);
    v.push(0x7f);
    v.push(0x00);
    proof {
        assert(v@ =~= spec_type_tail());
    }
    v
}

/// The synthesized backing table: opaque-reference slots, growable, sized
/// to the three reserved built-in handles.
pub open spec fn spec_table_tail() -> Seq<u8> {
    seq![0x6fu8, 0x00, 0x03]
}

pub(crate) fn table_section_tail() -> (v: Vec<u8>)
    ensures
        v@ == spec_table_tail(),
{
    let mut v: Vec<u8> = Vec::new();
    v.push(0x6f);
    v.push(0x00);
    v.push(0x03);
    proof {
        assert(v@ =~= spec_table_tail());
    }
    v
}

/// One export entry: the name, what kind of item is exported, its index.
pub open spec fn spec_export_entry(name: Seq<u8>, kind: u8, idx: int) -> Seq<u8> {
    spec_leb_encode(name.len()) + name + seq![kind] + spec_leb_encode(idx as nat)
}

pub(crate) fn export_entry(name: Vec<u8>, kind: u8, idx: u32) -> (v: Vec<u8>)
    requires
        name@.len() <= 0xFFFF_FFFF,
    ensures
        v@ == spec_export_entry(name@, kind, idx as int),
{
    let mut v = leb_encode(name.len() as u32);
    push_bytes(&mut v, name.as_slice());
    v.push(kind);
    let mut e = leb_encode(idx);
    v.append(&mut e);
    proof {
        assert(v@ =~= spec_export_entry(name@, kind, idx as int));
    }
    v
}

/// A written integer below two to the thirty-second takes at most five
/// bytes.
pub proof fn lemma_leb_encode_len(n: nat)
    ensures
        n < 0x80 ==> spec_leb_encode(n).len() == 1,
        n < 0x4000 ==> spec_leb_encode(n).len() <= 2,
        n < 0x200000 ==> spec_leb_encode(n).len() <= 3,
        n < 0x10000000 ==> spec_leb_encode(n).len() <= 4,
        n < 0x800000000 ==> spec_leb_encode(n).len() <= 5,
        spec_leb_encode(n).len() >= 1,
    decreases n,
{
    if n >= 0x80 {
        lemma_leb_encode_len(n / 0x80);
    }
}

/// A load or store opcode with its memory argument: natural alignment,
/// offset zero, addressing the given memory; a memory index other than
/// zero is written in the extended form that names it.
pub open spec fn spec_mem_access(op: u8, mem_idx: int) -> Seq<u8> {
    if mem_idx == 0 {
        seq![op, 0x02u8, 0x00]
    } else {
        seq![op, 0x42u8] + spec_leb_encode(mem_idx as nat) + seq![0x00u8]
    }
}

pub(crate) fn mem_access(op: u8, mem_idx: u32) -> (v: Vec<u8>)
    ensures
        v@ == spec_mem_access(op, mem_idx as int),
{
    let mut v: Vec<u8> = Vec::new();
    v.push(op);
    if mem_idx == 0 {
        v.push(0x02);
        v.push(0x00);
        proof {
            assert(v@ =~= spec_mem_access(op, mem_idx as int));
        }
    } else {
        v.push(0x42);
        let mut e = leb_encode(mem_idx);
        v.append(&mut e);
        v.push(0x00);
        proof {
            assert(v@ =~= spec_mem_access(op, mem_idx as int));
        }
    }
    v
}

/// The synthesized memory backing the free list: one growable page that
/// holds the stack of freed handles, four bytes each.
pub open spec fn spec_memory_tail() -> Seq<u8> {
    seq![0x00u8, 0x01]
}

pub(crate) fn memory_section_tail() -> (v: Vec<u8>)
    ensures
        v@ == spec_memory_tail(),
{
    let mut v: Vec<u8> = Vec::new();
    v.push(0x00);
    v.push(0x01);
    proof {
        assert(v@ =~= spec_memory_tail());
    }
    v
}

/// The synthesized free-list length: a mutable integer global starting at
/// zero, counting the freed handles on the stack.
pub open spec fn spec_global_tail() -> Seq<u8> {
    seq![0x7fu8, 0x01, 0x41, 0x00, 0x0b]
}

pub(crate) fn global_section_tail() -> (v: Vec<u8>)
    ensures
        v@ == spec_global_tail(),
{
    let mut v: Vec<u8> = Vec::new();
    v.push(0x7f);
    v.push(0x01);
    v.push(0x41);
    v.push(0x00);
    v.push(0x0b);
    proof {
        assert(v@ =~= spec_global_tail());
    }
    v
}

/// Body of the synthesized save function, implementing the table's reuse
/// discipline: if the free list is non-empty, pop its top index from the
/// memory-backed stack, place the argument there and return that index;
/// otherwise grow the table by one slot holding the argument and return
/// the old size, the fresh index.
#[verifier::opaque]
pub open spec fn spec_save_code_body(table_idx: int, mem_idx: int, global_idx: int) -> Seq<u8> {
    seq![0x01u8, 0x01, 0x7f]  // one scratch integer local
        + seq![0x23u8] + spec_leb_encode(global_idx as nat)  // free-list length
        + seq![0x04u8, 0x7f]  // non-empty: reuse the most recently freed index
        + seq![0x23u8] + spec_leb_encode(global_idx as nat) + seq![0x41u8, 0x01, 0x6b]
        + seq![0x24u8] + spec_leb_encode(global_idx as nat)  // length -= 1
        + seq![0x23u8] + spec_leb_encode(global_idx as nat) + seq![0x41u8, 0x02, 0x74]
        + spec_mem_access(0x28, mem_idx)  // index = stack[length]
        + seq![0x21u8, 0x01]
        + seq![0x20u8, 0x01, 0x20, 0x00, 0x26] + spec_leb_encode(table_idx as nat)  // store object
        + seq![0x20u8, 0x01]  // return the reused index
        + seq![0x05u8]  // empty: append a fresh slot
        + seq![0x20u8, 0x00, 0x41, 0x01, 0xfc, 0x0f] + spec_leb_encode(table_idx as nat)
        + seq![0x0bu8] + seq![0x0bu8]
}

#[verifier::rlimit(80)]
pub(crate) fn save_code_body(table_idx: u32, mem_idx: u32, global_idx: u32) -> (v: Vec<u8>)
    ensures
        v@ == spec_save_code_body(table_idx as int, mem_idx as int, global_idx as int),
        v@.len() <= 0xFFFF_FFFF,
{
    let mut v: Vec<u8> = Vec::new();
    v.push(0x01);
    v.push(0x01);
    v.push(0x7f);
    v.push(0x23);
    let mut g1 = leb_encode(global_idx);
    v.append(&mut g1);
    v.push(0x04);
    v.push(0x7f);
    v.push(0x23);
    let mut g2 = leb_encode(global_idx);
    v.append(&mut g2);
    v.push(0x41);
    v.push(0x01);
    v.push(0x6b);
    v.push(0x24);
    let mut g3 = leb_encode(global_idx);
    v.append(&mut g3);
    v.push(0x23);
    let mut g4 = leb_encode(global_idx);
    v.append(&mut g4);
    v.push(0x41);
    v.push(0x02);
    v.push(0x74);
    let mut ld = mem_access(0x28, mem_idx);
    v.append(&mut ld);
    v.push(0x21);
    v.push(0x01);
    v.push(0x20);
    v.push(0x01);
    v.push(0x20);
    v.push(0x00);
    v.push(0x26);
    let mut t1 = leb_encode(table_idx);
    v.append(&mut t1);
    v.push(0x20);
    v.push(0x01);
    v.push(0x05);
    v.push(0x20);
    v.push(0x00);
    v.push(0x41);
    v.push(0x01);
    v.push(0xfc);
    v.push(0x0f);
    let mut t2 = leb_encode(table_idx);
    v.append(&mut t2);
    v.push(0x0b);
    v.push(0x0b);
    proof {
        reveal(spec_save_code_body);
        lemma_leb_encode_len(table_idx as nat);
        lemma_leb_encode_len(mem_idx as nat);
        lemma_leb_encode_len(global_idx as nat);
        assert(v@ =~= spec_save_code_body(table_idx as int, mem_idx as int, global_idx as int));
    }
    v
}

/// Body of the synthesized drop function, implementing the table's drop
/// discipline: a reserved, out-of-range or already-free handle is left
/// alone; otherwise the slot is cleared and the index is pushed onto the
/// memory-backed free stack, growing the memory by a page when full, so
/// the next save reuses it first.
#[verifier::opaque]
pub open spec fn spec_drop_code_body(table_idx: int, mem_idx: int, global_idx: int) -> Seq<u8> {
    seq![0x00u8]  // no locals
        + seq![0x20u8, 0x00, 0x41, 0x03, 0x49, 0x04, 0x40, 0x0f, 0x0b]  // reserved: no-op
        + seq![0x20u8, 0x00, 0xfc, 0x10] + spec_leb_encode(table_idx as nat)
        + seq![0x4fu8, 0x04, 0x40, 0x0f, 0x0b]  // out of range: no-op
        + seq![0x20u8, 0x00, 0x25] + spec_leb_encode(table_idx as nat)
        + seq![0xd1u8, 0x04, 0x40, 0x0f, 0x0b]  // already free: no-op
        + seq![0x20u8, 0x00, 0xd0, 0x6f, 0x26] + spec_leb_encode(table_idx as nat)  // clear slot
        + seq![0x23u8] + spec_leb_encode(global_idx as nat) + seq![0x41u8, 0x02, 0x74]
        + seq![0x3fu8] + spec_leb_encode(mem_idx as nat) + seq![0x41u8, 0x10, 0x74]
        + seq![0x4fu8, 0x04, 0x40, 0x41, 0x01, 0x40] + spec_leb_encode(mem_idx as nat)
        + seq![0x1au8, 0x0b]  // stack full: grow the memory
        + seq![0x23u8] + spec_leb_encode(global_idx as nat) + seq![0x41u8, 0x02, 0x74, 0x20, 0x00]
        + spec_mem_access(0x36, mem_idx)  // stack[length] = handle
        + seq![0x23u8] + spec_leb_encode(global_idx as nat) + seq![0x41u8, 0x01, 0x6a, 0x24]
        + spec_leb_encode(global_idx as nat)  // length += 1
        + seq![0x0bu8]
}

#[verifier::rlimit(80)]
pub(crate) fn drop_code_body(table_idx: u32, mem_idx: u32, global_idx: u32) -> (v: Vec<u8>)
    ensures
        v@ == spec_drop_code_body(table_idx as int, mem_idx as int, global_idx as int),
        v@.len() <= 0xFFFF_FFFF,
{
    let mut v: Vec<u8> = Vec::new();
    v.push(0x00);
    v.push(0x20);
    v.push(0x00);
    v.push(0x41);
    v.push(0x03);
    v.push(0x49);
    v.push(0x04);
    v.push(0x40);
    v.push(0x0f);
    v.push(0x0b);
    v.push(0x20);
    v.push(0x00);
    v.push(0xfc);
    v.push(0x10);
    let mut t1 = leb_encode(table_idx);
    v.append(&mut t1);
    v.push(0x4f);
    v.push(0x04);
    v.push(0x40);
    v.push(0x0f);
    v.push(0x0b);
    v.push(0x20);
    v.push(0x00);
    v.push(0x25);
    let mut t2 = leb_encode(table_idx);
    v.append(&mut t2);
    v.push(0xd1);
    v.push(0x04);
    v.push(0x40);
    v.push(0x0f);
    v.push(0x0b);
    v.push(0x20);
    v.push(0x00);
    v.push(0xd0);
    v.push(0x6f);
    v.push(0x26);
    let mut t3 = leb_encode(table_idx);
    v.append(&mut t3);
    v.push(0x23);
    let mut g1 = leb_encode(global_idx);
    v.append(&mut g1);
    v.push(0x41);
    v.push(0x02);
    v.push(0x74);
    v.push(0x3f);
    let mut m1 = leb_encode(mem_idx);
    v.append(&mut m1);
    v.push(0x41);
    v.push(0x10);
    v.push(0x74);
    v.push(0x4f);
    v.push(0x04);
    v.push(0x40);
    v.push(0x41);
    v.push(0x01);
    v.push(0x40);
    let mut m2 = leb_encode(mem_idx);
    v.append(&mut m2);
    v.push(0x1a);
    v.push(0x0b);
    v.push(0x23);
    let mut g2 = leb_encode(global_idx);
    v.append(&mut g2);
    v.push(0x41);
    v.push(0x02);
    v.push(0x74);
    v.push(0x20);
    v.push(0x00);
    let mut st = mem_access(0x36, mem_idx);
    v.append(&mut st);
    v.push(0x23);
    let mut g3 = leb_encode(global_idx);
    v.append(&mut g3);
    v.push(0x41);
    v.push(0x01);
    v.push(0x6a);
    v.push(0x24);
    let mut g4 = leb_encode(global_idx);
    v.append(&mut g4);
    v.push(0x0b);
    proof {
        reveal(spec_drop_code_body);
        lemma_leb_encode_len(table_idx as nat);
        lemma_leb_encode_len(mem_idx as nat);
        lemma_leb_encode_len(global_idx as nat);
        assert(v@ =~= spec_drop_code_body(table_idx as int, mem_idx as int, global_idx as int));
    }
    v
}

/// One code entry: the body's size, then the body.
pub open spec fn spec_code_entry(body: Seq<u8>) -> Seq<u8> {
    spec_leb_encode(body.len()) + body
}

pub(crate) fn code_entry(body: Vec<u8>) -> (v: Vec<u8>)
    requires
        body@.len() <= 0xFFFF_FFFF,
    ensures
        v@ == spec_code_entry(body@),
{
    let mut v = leb_encode(body.len() as u32);
    push_bytes(&mut v, body.as_slice());
    v
}

/// No two sections carry this id.
pub open spec fn spec_unique_id(secs: Seq<SectionView>, id: u8) -> bool {
    forall|j: int, k: int|
        0 <= j < k < secs.len() ==> !((#[trigger] secs[j].id) == id && (#[trigger] secs[k].id)
            == id)
}

/// Every section body is small enough for its size to be written back.
pub open spec fn spec_secs_wf(secs: Seq<SectionView>) -> bool {
    forall|i: int| 0 <= i < secs.len() ==> (#[trigger] secs[i].body).len() <= 0xFFFF_FFFF
}

/// Section bodies produced by splitting are bounded by their size field.
pub proof fn lemma_sections_wf(b: Seq<u8>, pos: int)
    requires
        spec_sections_from(b, pos) is Some,
    ensures
        spec_secs_wf(spec_sections_from(b, pos).unwrap()),
    decreases b.len() - pos,
{
    if pos == b.len() {
    } else {
        let id = b[pos];
        match spec_leb(b, pos + 1, 5) {
            None => {},
            Some((size, p)) => {
                lemma_leb_bounds(b, pos + 1, 5);
                lemma_leb_cap_values();
                lemma_sections_wf(b, p + size);
                let head = SectionView { id, body: b.subrange(p, p + size) };
                let rest = spec_sections_from(b, p + size).unwrap();
                assert forall|i: int|
                    0 <= i < spec_sections_from(b, pos).unwrap().len() implies (
                #[trigger] spec_sections_from(b, pos).unwrap()[i].body).len() <= 0xFFFF_FFFF by {
                    if i == 0 {
                        assert(spec_sections_from(b, pos).unwrap()[0] == head);
                    } else {
                        assert(spec_sections_from(b, pos).unwrap()[i] == rest[i - 1]);
                    }
                }
            },
        }
    }
}

/// Where a new section of this id belongs: before the first non-custom
/// section with a greater id, or at the end.
pub open spec fn spec_insert_pos(secs: Seq<SectionView>, id: u8, i: int) -> int
    decreases secs.len() - i,
{
    if i < 0 || i >= secs.len() {
        secs.len() as int
    } else if secs[i].id != 0 && secs[i].id > id {
        i
    } else {
        spec_insert_pos(secs, id, i + 1)
    }
}

pub proof fn lemma_insert_pos_in_range(secs: Seq<SectionView>, id: u8, i: int)
    requires
        0 <= i <= secs.len(),
    ensures
        i <= spec_insert_pos(secs, id, i) <= secs.len(),
    decreases secs.len() - i,
{
    if i < secs.len() && !(secs[i].id != 0 && secs[i].id > id) {
        lemma_insert_pos_in_range(secs, id, i + 1);
    }
}

/// Sections with the target id replaced by the given payload.
pub open spec fn spec_replace_section(secs: Seq<SectionView>, id: u8, body: Seq<u8>) -> Seq<
    SectionView,
> {
    secs.map_values(|s: SectionView| if s.id == id { SectionView { id, body } } else { s })
}

/// Extends the section with the given id: its entry count grows by
/// `extra` and `tail` is appended to its payload; an absent section is
/// created in id order. Nothing where a count is unreadable or a size
/// field would overflow.
pub open spec fn spec_apply_section(
    secs: Seq<SectionView>,
    id: u8,
    extra: int,
    tail: Seq<u8>,
) -> Option<Seq<SectionView>> {
    match spec_find_section(secs, id) {
        Some(body) => match spec_leb(body, 0, 5) {
            None => None,
            Some((count, p)) => if count + extra > 0xFFFF_FFFF {
                None
            } else {
                let nb = spec_leb_encode((count + extra) as nat) + body.skip(p) + tail;
                if nb.len() > 0xFFFF_FFFF {
                    None
                } else {
                    Some(spec_replace_section(secs, id, nb))
                }
            },
        },
        None => {
            let nb = spec_leb_encode(extra as nat) + tail;
            if nb.len() > 0xFFFF_FFFF {
                None
            } else {
                Some(secs.insert(spec_insert_pos(secs, id, 0), SectionView { id, body: nb }))
            }
        },
    }
}

pub(crate) fn apply_section(secs: Vec<Section>, id: u8, extra: u32, tail: Vec<u8>) -> (r: Option<
    Vec<Section>,
>)
    requires
        spec_unique_id(secs_view(secs@), id),
        0 < extra,
    ensures
        match r {
            Some(v) => {
                &&& spec_apply_section(secs_view(secs@), id, extra as int, tail@) == Some(
                    secs_view(v@),
                )
                &&& forall|id2: u8|
                    spec_unique_id(secs_view(secs@), id2) && id2 != id ==> #[trigger] spec_unique_id(
                        secs_view(v@),
                        id2,
                    )
                &&& spec_secs_wf(secs_view(secs@)) ==> spec_secs_wf(secs_view(v@))
            },
            None => spec_apply_section(secs_view(secs@), id, extra as int, tail@) is None,
        },
{
    let ghost osv = secs_view(secs@);
    let mut secs = secs;
    let mut tail = tail;
    match find_section_index(&secs, id) {
        Some(i) => {
            let (count, p) = match leb_decode(secs[i].body.as_slice(), 0, 5) {
                None => return None,
                Some(x) => x,
            };
            proof {
                lemma_leb_bounds(osv[i as int].body, 0, 5);
                lemma_leb_cap_values();
            }
            if count as u64 + extra as u64 > 0xFFFF_FFFFu64 {
                return None;
            }
            let mut nb = leb_encode(count + extra);
            let body_len = secs[i].body.len();
            push_bytes(&mut nb, slice_subrange(secs[i].body.as_slice(), p, body_len));
            nb.append(&mut tail);
            proof {
                assert(osv[i as int].body.skip(p as int) =~= osv[i as int].body.subrange(
                    p as int,
                    osv[i as int].body.len() as int,
                ));
            }
            if nb.len() as u64 > 0xFFFF_FFFFu64 {
                return None;
            }
            let ghost nbv = nb@;
            secs.set(i, Section { id, body: nb });
            proof {
                assert forall|j: int| 0 <= j < secs@.len() implies secs_view(secs@)[j]
                    == spec_replace_section(osv, id, nbv)[j] by {
                    if j != i {
                        assert(!(osv[j].id == id && osv[i as int].id == id)) by {
                            if j < i {
                                assert(!((osv[j].id) == id && (osv[i as int].id) == id));
                            }
                        }
                    }
                }
                assert(secs_view(secs@) =~= spec_replace_section(osv, id, nbv));
                assert forall|id2: u8|
                    spec_unique_id(osv, id2) && id2 != id implies #[trigger] spec_unique_id(
                    secs_view(secs@),
                    id2,
                ) by {
                    assert forall|j: int, k: int| 0 <= j < k < secs@.len() implies !((
                    #[trigger] secs_view(secs@)[j].id) == id2 && (#[trigger] secs_view(
                        secs@,
                    )[k].id) == id2) by {
                        assert(secs_view(secs@)[j].id == osv[j].id);
                        assert(secs_view(secs@)[k].id == osv[k].id);
                    }
                }
            }
            Some(secs)
        },
        None => {
            let mut nb = leb_encode(extra);
            nb.append(&mut tail);
            if nb.len() as u64 > 0xFFFF_FFFFu64 {
                return None;
            }
            let mut pos: usize = 0;
            while pos < secs.len() && !(secs[pos].id != 0 && secs[pos].id > id)
                invariant
                    pos <= secs@.len(),
                    osv == secs_view(secs@),
                    spec_insert_pos(osv, id, 0) == spec_insert_pos(osv, id, pos as int),
                decreases secs@.len() - pos,
            {
                pos = pos + 1;
            }
            proof {
                lemma_insert_pos_in_range(osv, id, 0);
                assert(spec_insert_pos(osv, id, 0) == pos as int);
            }
            let ghost nbv = nb@;
            secs.insert(pos, Section { id, body: nb });
            proof {
                let newsec = SectionView { id, body: nbv };
                assert(secs_view(secs@) =~= osv.insert(pos as int, newsec));
                let nsv = secs_view(secs@);
                assert forall|id2: u8|
                    spec_unique_id(osv, id2) && id2 != id implies #[trigger] spec_unique_id(
                    nsv,
                    id2,
                ) by {
                    assert forall|j: int, k: int| 0 <= j < k < nsv.len() implies !((
                    #[trigger] nsv[j].id) == id2 && (#[trigger] nsv[k].id) == id2) by {
                        if nsv[j].id == id2 && nsv[k].id == id2 {
                            let j2: int = if j < pos { j } else { j - 1 };
                            let k2: int = if k < pos { k } else { k - 1 };
                            assert(j != pos && k != pos);
                            assert(nsv[j] == osv[j2] && nsv[k] == osv[k2]);
                            assert(0 <= j2 < k2 < osv.len());
                            assert(!((osv[j2].id) == id2 && (osv[k2].id) == id2));
                        }
                    }
                }
            }
            Some(secs)
        },
    }
}

/// One emitted section: its id, its payload's size, its payload.
pub open spec fn spec_encode_section(s: SectionView) -> Seq<u8> {
    seq![s.id] + spec_leb_encode(s.body.len()) + s.body
}

/// The emitted section stream, in order.
pub open spec fn spec_emit(secs: Seq<SectionView>) -> Seq<u8>
    decreases secs.len(),
{
    if secs.len() == 0 {
        Seq::empty()
    } else {
        spec_emit(secs.drop_last()) + spec_encode_section(secs.last())
    }
}

/// Writes the whole module back: preamble, then each section framed by its
/// id and size.
pub(crate) fn emit_module(secs: &Vec<Section>) -> (out: Vec<u8>)
    requires
        spec_secs_wf(secs_view(secs@)),
    ensures
        out@ == spec_header() + spec_emit(secs_view(secs@)),
{
    let mut out: Vec<u8> = Vec::new();
    out.push(0x00);
    out.push(0x61);
    out.push(0x73);
    out.push(0x6d);
    out.push(0x01);
    out.push(0x00);
    out.push(0x00);
    out.push(0x00);
    proof {
        assert(secs_view(secs@).take(0) =~= Seq::<SectionView>::empty());
        assert(out@ =~= spec_header() + spec_emit(secs_view(secs@).take(0)));
    }
    let mut i: usize = 0;
    while i < secs.len()
        invariant
            i <= secs@.len(),
            spec_secs_wf(secs_view(secs@)),
            out@ == spec_header() + spec_emit(secs_view(secs@).take(i as int)),
        decreases secs@.len() - i,
    {
        out.push(secs[i].id);
        let mut lenb = leb_encode(secs[i].body.len() as u32);
        out.append(&mut lenb);
        push_bytes(&mut out, secs[i].body.as_slice());
        proof {
            let sv = secs_view(secs@);
            assert(sv.take(i as int + 1).drop_last() =~= sv.take(i as int));
            assert(sv.take(i as int + 1).last() == sv[i as int]);
            assert(spec_emit(sv.take(i as int + 1)) == spec_emit(sv.take(i as int))
                + spec_encode_section(sv[i as int]));
            assert(out@ =~= spec_header() + spec_emit(sv.take(i as int + 1)));
        }
        i = i + 1;
    }
    proof {
        assert(secs_view(secs@).take(secs@.len() as int) =~= secs_view(secs@));
    }
    out
}

/// Index the synthesized save function gets in the function index space:
/// after all imported and all already-defined functions.
pub open spec fn spec_save_func_index(m: ParsedModule) -> int {
    spec_count_func_imports(m.imports, m.imports.len() as int) + m.n_defined_funcs
}

/// Index the synthesized backing table gets in the table index space.
pub open spec fn spec_table_index(m: ParsedModule) -> int {
    spec_count_table_imports(m.imports, m.imports.len() as int) + m.n_local_tables
}

/// Index the synthesized free-list memory gets in the memory index space.
pub open spec fn spec_memory_index(m: ParsedModule) -> int {
    spec_count_memory_imports(m.imports, m.imports.len() as int) + m.n_local_memories
}

/// Index the synthesized free-list length global gets in the global index
/// space.
pub open spec fn spec_global_index(m: ParsedModule) -> int {
    spec_count_global_imports(m.imports, m.imports.len() as int) + m.n_local_globals
}

/// The two entries appended to the function section: the save and drop
/// signature indices, right after the module's own signatures.
pub open spec fn spec_function_tail(n_types: int) -> Seq<u8> {
    spec_leb_encode(n_types as nat) + spec_leb_encode((n_types + 1) as nat)
}

/// The three exports appended: save and drop functions, then the table.
pub open spec fn spec_export_tail(save_idx: int, drop_idx: int, table_idx: int) -> Seq<u8> {
    spec_export_entry(spec_save_export_name(), 0, save_idx) + spec_export_entry(
        spec_drop_export_name(),
        0,
        drop_idx,
    ) + spec_export_entry(spec_table_export_name(), 1, table_idx)
}

/// The two code entries appended: the save body, then the drop body.
pub open spec fn spec_code_tail(table_idx: int, mem_idx: int, global_idx: int) -> Seq<u8> {
    spec_code_entry(spec_save_code_body(table_idx, mem_idx, global_idx)) + spec_code_entry(
        spec_drop_code_body(table_idx, mem_idx, global_idx),
    )
}

/// The section list after the patch: two signatures appended to the type
/// section, two entries to the function section, one table, three exports
/// and two code bodies, each section created in id order where absent.
pub open spec fn spec_patched_sections(m: ParsedModule) -> Option<Seq<SectionView>> {
    let save_idx = spec_save_func_index(m);
    let table_idx = spec_table_index(m);
    let mem_idx = spec_memory_index(m);
    let global_idx = spec_global_index(m);
    let n_types = m.types.len() as int;
    if save_idx + 1 > 0xFFFF_FFFF || table_idx > 0xFFFF_FFFF || mem_idx > 0xFFFF_FFFF
        || global_idx > 0xFFFF_FFFF || n_types + 1 > 0xFFFF_FFFF {
        None
    } else {
        match spec_apply_section(m.sections, 1, 2, spec_type_tail()) {
            None => None,
            Some(s1) => match spec_apply_section(s1, 3, 2, spec_function_tail(n_types)) {
                None => None,
                Some(s3) => match spec_apply_section(s3, 4, 1, spec_table_tail()) {
                    None => None,
                    Some(s4) => match spec_apply_section(s4, 5, 1, spec_memory_tail()) {
                        None => None,
                        Some(s5) => match spec_apply_section(s5, 6, 1, spec_global_tail()) {
                            None => None,
                            Some(s6) => match spec_apply_section(
                                s6,
                                7,
                                3,
                                spec_export_tail(save_idx, save_idx + 1, table_idx),
                            ) {
                                None => None,
                                Some(s7) => spec_apply_section(
                                    s7,
                                    10,
                                    2,
                                    spec_code_tail(table_idx, mem_idx, global_idx),
                                ),
                            },
                        },
                    },
                },
            },
        }
    }
}

/// What normalization returns for given input bytes: the patched module's
/// bytes, the input unchanged when nothing qualifies, or which error.
/// Everything the executable pass returns is this function of the input
/// bytes alone.
pub open spec fn spec_normalize(b: Seq<u8>) -> Result<Seq<u8>, NormError> {
    match spec_parse(b) {
        None => Err(NormError::Malformed),
        Some(m) => if spec_has_unsupported(m) {
            Err(NormError::UnsupportedSignature)
        } else if !spec_needs_patch(m) {
            Ok(b)
        } else {
            match spec_patched_sections(m) {
                None => Err(NormError::IndexOverflow),
                Some(secs) => Ok(spec_header() + spec_emit(secs)),
            }
        },
    }
}

/// What the patch produced: whether anything was patched, the imports that
/// need handle translation, and where the synthesized save and drop
/// functions and the backing table live in the module's index spaces. The
/// three indices are zero, and meaningless, when nothing was patched.
pub struct PatchInfo {
    pub patched: bool,
    pub handle_imports: Vec<ImportName>,
    pub save_function_index: u32,
    pub drop_function_index: u32,
    pub table_index: u32,
}

/// Normalizes a module: parses it, finds the imports that cross the handle
/// bridge, and patches in the backing table and the save and drop
/// functions under their fixed export names. Malformed bytes and
/// unsupported signatures are rejected, each distinctly; a module with no
/// qualifying import comes back byte-for-byte unchanged.
#[verifier::rlimit(100)]
pub fn normalize(input: &[u8]) -> (r: Result<(PatchInfo, Vec<u8>), NormError>)
    ensures
        (r is Ok) == (spec_normalize(input@) is Ok),
        r matches Err(e) ==> spec_normalize(input@) == Err::<Seq<u8>, NormError>(e),
        r matches Ok(p) ==> spec_normalize(input@) == Ok::<Seq<u8>, NormError>(p.1@),
        r matches Ok(p) ==> ({
            let m = spec_parse(input@).unwrap();
            &&& spec_parse(input@) is Some
            &&& p.0.patched == spec_needs_patch(m)
            &&& names_view(p.0.handle_imports@) == spec_qualifying_names(m, m.imports.len() as int)
            &&& p.0.patched ==> p.0.save_function_index as int == spec_save_func_index(m)
            &&& p.0.patched ==> p.0.drop_function_index as int == spec_save_func_index(m) + 1
            &&& p.0.patched ==> p.0.table_index as int == spec_table_index(m)
            &&& !p.0.patched ==> p.1@ == input@
            &&& !p.0.patched ==> p.0.save_function_index == 0 && p.0.drop_function_index == 0
                && p.0.table_index == 0
        }),
{
    let p = match parse_module(input) {
        None => return Err(NormError::Malformed),
        Some(p) => p,
    };
    let ghost m = p@;
    if any_unsupported(&p) {
        return Err(NormError::UnsupportedSignature);
    }
    let names = qualifying_names(&p);
    if !any_qualifying(&p) {
        let info = PatchInfo {
            patched: false,
            handle_imports: names,
            save_function_index: 0,
            drop_function_index: 0,
            table_index: 0,
        };
        return Ok((info, slice_to_vec(input)));
    }
    let n_func = count_func_imports(&p.imports);
    let n_tab = count_table_imports(&p.imports);
    let n_mem = count_memory_imports(&p.imports);
    let n_glob = count_global_imports(&p.imports);
    proof {
        lemma_count_imports_in_range(m.imports, m.imports.len() as int);
    }
    let n_types_usize = p.types.len();
    let n_defined = p.n_defined_funcs;
    let n_loc_tables = p.n_local_tables;
    let n_loc_mems = p.n_local_memories;
    let n_loc_globals = p.n_local_globals;
    if n_func as u64 > 0xFFFF_FFFFu64 {
        return Err(NormError::IndexOverflow);
    }
    let save64: u64 = n_func as u64 + n_defined as u64;
    if save64 > 0xFFFF_FFFEu64 {
        return Err(NormError::IndexOverflow);
    }
    if n_tab as u64 > 0xFFFF_FFFFu64 {
        return Err(NormError::IndexOverflow);
    }
    let table64: u64 = n_tab as u64 + n_loc_tables as u64;
    if table64 > 0xFFFF_FFFFu64 {
        return Err(NormError::IndexOverflow);
    }
    if n_mem as u64 > 0xFFFF_FFFFu64 {
        return Err(NormError::IndexOverflow);
    }
    let mem64: u64 = n_mem as u64 + n_loc_mems as u64;
    if mem64 > 0xFFFF_FFFFu64 {
        return Err(NormError::IndexOverflow);
    }
    if n_glob as u64 > 0xFFFF_FFFFu64 {
        return Err(NormError::IndexOverflow);
    }
    let global64: u64 = n_glob as u64 + n_loc_globals as u64;
    if global64 > 0xFFFF_FFFFu64 {
        return Err(NormError::IndexOverflow);
    }
    if n_types_usize as u64 > 0xFFFF_FFFEu64 {
        return Err(NormError::IndexOverflow);
    }
    let save_idx: u32 = save64 as u32;
    let drop_idx: u32 = save_idx + 1;
    let table_idx: u32 = table64 as u32;
    let mem_idx: u32 = mem64 as u32;
    let global_idx: u32 = global64 as u32;
    let n_types: u32 = n_types_usize as u32;
    proof {
        assert(save_idx as int == spec_save_func_index(m));
        assert(table_idx as int == spec_table_index(m));
        assert(mem_idx as int == spec_memory_index(m));
        assert(global_idx as int == spec_global_index(m));
        lemma_sections_wf(input@, 8);
        assert forall|idx: u8| idx != 0 implies spec_unique_id(m.sections, idx) by {
            assert forall|j: int, k: int| 0 <= j < k < m.sections.len() implies !((
            #[trigger] m.sections[j].id) == idx && (#[trigger] m.sections[k].id) == idx) by {
                if m.sections[j].id == idx && m.sections[k].id == idx {
                    assert(m.sections[j].id < m.sections[k].id);
                }
            }
        }
    }
    let sections = p.sections;
    let s1 = match apply_section(sections, 1, 2, type_section_tail()) {
        None => return Err(NormError::IndexOverflow),
        Some(s) => s,
    };
    let mut ftail = leb_encode(n_types);
    let mut ftail2 = leb_encode(n_types + 1);
    ftail.append(&mut ftail2);
    proof {
        assert(ftail@ == spec_function_tail(n_types_usize as int));
        assert(spec_unique_id(secs_view(s1@), 3));
    }
    let s3 = match apply_section(s1, 3, 2, ftail) {
        None => return Err(NormError::IndexOverflow),
        Some(s) => s,
    };
    proof {
        assert(spec_unique_id(secs_view(s3@), 4));
    }
    let s4 = match apply_section(s3, 4, 1, table_section_tail()) {
        None => return Err(NormError::IndexOverflow),
        Some(s) => s,
    };
    proof {
        assert(spec_unique_id(secs_view(s4@), 5));
    }
    let s5 = match apply_section(s4, 5, 1, memory_section_tail()) {
        None => return Err(NormError::IndexOverflow),
        Some(s) => s,
    };
    proof {
        assert(spec_unique_id(secs_view(s5@), 6));
    }
    let s6 = match apply_section(s5, 6, 1, global_section_tail()) {
        None => return Err(NormError::IndexOverflow),
        Some(s) => s,
    };
    let mut etail = export_entry(save_export_name(), 0, save_idx);
    let mut e2 = export_entry(drop_export_name(), 0, drop_idx);
    let mut e3 = export_entry(table_export_name(), 1, table_idx);
    etail.append(&mut e2);
    etail.append(&mut e3);
    proof {
        assert(etail@ == spec_export_tail(save_idx as int, save_idx as int + 1, table_idx as int));
        assert(spec_unique_id(secs_view(s6@), 7));
    }
    let s7 = match apply_section(s6, 7, 3, etail) {
        None => return Err(NormError::IndexOverflow),
        Some(s) => s,
    };
    let mut ctail = code_entry(save_code_body(table_idx, mem_idx, global_idx));
    let mut c2 = code_entry(drop_code_body(table_idx, mem_idx, global_idx));
    ctail.append(&mut c2);
    proof {
        assert(ctail@ == spec_code_tail(table_idx as int, mem_idx as int, global_idx as int));
        assert(spec_unique_id(secs_view(s7@), 10));
    }
    let s10 = match apply_section(s7, 10, 2, ctail) {
        None => return Err(NormError::IndexOverflow),
        Some(s) => s,
    };
    proof {
        assert(spec_secs_wf(secs_view(s10@)));
        assert(spec_apply_section(m.sections, 1, 2, spec_type_tail()) == Some(secs_view(s1@)));
        assert(spec_apply_section(secs_view(s1@), 3, 2, spec_function_tail(m.types.len() as int))
            == Some(secs_view(s3@)));
        assert(spec_apply_section(secs_view(s3@), 4, 1, spec_table_tail()) == Some(
            secs_view(s4@),
        ));
        assert(spec_apply_section(secs_view(s4@), 5, 1, spec_memory_tail()) == Some(
            secs_view(s5@),
        ));
        assert(spec_apply_section(secs_view(s5@), 6, 1, spec_global_tail()) == Some(
            secs_view(s6@),
        ));
        assert(spec_apply_section(
            secs_view(s6@),
            7,
            3,
            spec_export_tail(
                spec_save_func_index(m),
                spec_save_func_index(m) + 1,
                spec_table_index(m),
            ),
        ) == Some(secs_view(s7@)));
        assert(spec_apply_section(
            secs_view(s7@),
            10,
            2,
            spec_code_tail(spec_table_index(m), spec_memory_index(m), spec_global_index(m)),
        ) == Some(secs_view(s10@)));
        assert(spec_patched_sections(m) == Some(secs_view(s10@)));
    }
    let out = emit_module(&s10);
    let info = PatchInfo {
        patched: true,
        handle_imports: names,
        save_function_index: save_idx,
        drop_function_index: drop_idx,
        table_index: table_idx,
    };
    Ok((info, out))
}

/// Normalization is a pure function of the input bytes: two runs on the
/// same bytes return the same outcome, byte-identical output included.
pub proof fn lemma_normalize_deterministic(a: Seq<u8>, b: Seq<u8>)
    requires
        a == b,
    ensures
        spec_normalize(a) == spec_normalize(b),
{
}

/// A module that parses and has no qualifying import is returned
/// byte-for-byte unchanged: detection short-circuits the rewrite.
pub proof fn lemma_normalize_preserves_clean_module(b: Seq<u8>)
    requires
        spec_parse(b) is Some,
        !spec_has_unsupported(spec_parse(b).unwrap()),
        !spec_needs_patch(spec_parse(b).unwrap()),
    ensures
        spec_normalize(b) == Ok::<Seq<u8>, NormError>(b),
{
}

} // verus!
