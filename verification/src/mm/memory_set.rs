//! The region table of an address space.
//!
//! An address space is seen as a map from page numbers to permission bits.
//! It is held as a list of regions, sorted by address, of which no two share
//! a page. Installing and removing the page-table entries themselves is left
//! to the caller, which learns from the result what to do.

use crate::mm::address::VirtAddr;
use vstd::prelude::*;

verus! {

/// Permission bit: the pages can be read.
pub const PORT_READ: u8 = 1;

/// Permission bit: the pages can be written.
pub const PORT_WRITE: u8 = 2;

/// Permission bit: the pages can be executed.
pub const PORT_EXEC: u8 = 4;

/// Why a request to map or unmap a range was refused.
#[derive(Clone, Copy, Debug, PartialEq, Eq, Structural)]
pub enum MapError {
    /// An end of the range is not the first byte of a page.
    MisalignedAddress,
    /// The permission bits are zero or hold a bit other than read, write and
    /// execute.
    InvalidPermissionBits,
    /// A page of the range is mapped already.
    OverlappingMapping,
    /// A page of the range is not mapped.
    PartiallyUnmappedRange,
}

/// Whether `perm` is a permission set that a page can have: at least one of
/// read, write and execute, and no other bit.
pub open spec fn valid_perm(perm: u8) -> bool {
    1 <= perm <= 7
}

/// Whether page `p` lies in the byte range from `start` up to `end`.
pub open spec fn in_range(start: VirtAddr, end: VirtAddr, p: int) -> bool {
    start.spec_floor() <= p < end.spec_floor()
}

/// A run of pages with one permission set: the pages `start_vpn` up to, not
/// including, `end_vpn`.
#[derive(Clone, Copy, Debug, PartialEq, Eq, Structural)]
pub struct MapArea {
    pub start_vpn: usize,
    pub end_vpn: usize,
    pub perm: u8,
}

impl MapArea {
    /// A region holds at least one page and a valid permission set.
    pub open spec fn wf(&self) -> bool {
        self.start_vpn < self.end_vpn && valid_perm(self.perm)
    }

    /// Whether page `p` belongs to the region.
    pub open spec fn contains(&self, p: int) -> bool {
        self.start_vpn <= p < self.end_vpn
    }
}

/// The permission bits of page `p` under the regions `areas`, if one of them
/// holds the page.
pub open spec fn perm_at(areas: Seq<MapArea>, p: int) -> Option<u8>
    decreases areas.len(),
{
    if areas.len() == 0 {
        None
    } else if areas.last().contains(p) {
        Some(areas.last().perm)
    } else {
        perm_at(areas.drop_last(), p)
    }
}

/// The pages that the regions `areas` map, each with its permission bits.
pub open spec fn pages_of(areas: Seq<MapArea>) -> Map<int, u8> {
    Map::new(|p: int| perm_at(areas, p) is Some, |p: int| perm_at(areas, p)->0)
}

/// Each region ends where the next one starts, or before.
pub open spec fn sorted(areas: Seq<MapArea>) -> bool {
    forall|i: int, j: int| 0 <= i < j < areas.len() ==> areas[i].end_vpn <= areas[j].start_vpn
}

/// Every region is well formed.
pub open spec fn all_wf(areas: Seq<MapArea>) -> bool {
    forall|i: int| 0 <= i < areas.len() ==> (#[trigger] areas[i]).wf()
}

proof fn lemma_perm_at_push(areas: Seq<MapArea>, a: MapArea)
    ensures
        forall|p: int| #[trigger]
            perm_at(areas.push(a), p) == if a.contains(p) {
                Some(a.perm)
            } else {
                perm_at(areas, p)
            },
{
    assert(areas.push(a).drop_last() =~= areas);
    assert(areas.push(a).last() == a);
}

proof fn lemma_perm_at_some(areas: Seq<MapArea>, p: int)
    ensures
        perm_at(areas, p) is Some <==> exists|j: int| 0 <= j < areas.len() && (#[trigger] areas[j]).contains(p),
    decreases areas.len(),
{
    if areas.len() > 0 {
        let rest = areas.drop_last();
        lemma_perm_at_some(rest, p);
        if areas.last().contains(p) {
            assert(areas[areas.len() - 1].contains(p));
        } else if perm_at(rest, p) is Some {
            let j = choose|j: int| 0 <= j < rest.len() && (#[trigger] rest[j]).contains(p);
            assert(areas[j].contains(p));
        } else {
            assert forall|j: int| 0 <= j < areas.len() implies !(#[trigger] areas[j]).contains(p) by {
                if j < rest.len() {
                    assert(rest[j] == areas[j]);
                }
            }
        }
    }
}

proof fn lemma_perm_at_valid(areas: Seq<MapArea>, p: int)
    requires
        all_wf(areas),
    ensures
        perm_at(areas, p) matches Some(perm) ==> valid_perm(perm),
    decreases areas.len(),
{
    if areas.len() > 0 {
        assert(areas[areas.len() - 1].wf());
        let rest = areas.drop_last();
        assert forall|i: int| 0 <= i < rest.len() implies (#[trigger] rest[i]).wf() by {
            assert(rest[i] == areas[i]);
        }
        lemma_perm_at_valid(rest, p);
    }
}

proof fn lemma_take_push(areas: Seq<MapArea>, i: int)
    requires
        0 <= i < areas.len(),
    ensures
        areas.take(i + 1) == areas.take(i).push(areas[i]),
{
    assert(areas.take(i + 1) =~= areas.take(i).push(areas[i]));
}

/// What [`MemorySet::map`] answers on an address space that maps `m`.
pub open spec fn spec_map_result(m: Map<int, u8>, start: VirtAddr, end: VirtAddr, perm: u8) -> Result<
    (),
    MapError,
> {
    if !start.spec_aligned() || !end.spec_aligned() {
        Err(MapError::MisalignedAddress)
    } else if !valid_perm(perm) {
        Err(MapError::InvalidPermissionBits)
    } else if exists|p: int| in_range(start, end, p) && m.contains_key(p) {
        Err(MapError::OverlappingMapping)
    } else {
        Ok(())
    }
}

/// What an address space that maps `m` maps after [`MemorySet::map`].
pub open spec fn spec_map(m: Map<int, u8>, start: VirtAddr, end: VirtAddr, perm: u8) -> Map<int, u8> {
    if spec_map_result(m, start, end, perm) is Ok {
        Map::new(
            |p: int| m.contains_key(p) || in_range(start, end, p),
            |p: int|
                if in_range(start, end, p) {
                    perm
                } else {
                    m[p]
                },
        )
    } else {
        m
    }
}

/// What [`MemorySet::unmap`] answers on an address space that maps `m`.
pub open spec fn spec_unmap_result(m: Map<int, u8>, start: VirtAddr, end: VirtAddr) -> Result<(), MapError> {
    if !start.spec_aligned() || !end.spec_aligned() {
        Err(MapError::MisalignedAddress)
    } else if exists|p: int| in_range(start, end, p) && !m.contains_key(p) {
        Err(MapError::PartiallyUnmappedRange)
    } else {
        Ok(())
    }
}

/// What an address space that maps `m` maps after [`MemorySet::unmap`].
pub open spec fn spec_unmap(m: Map<int, u8>, start: VirtAddr, end: VirtAddr) -> Map<int, u8> {
    if spec_unmap_result(m, start, end) is Ok {
        Map::new(|p: int| m.contains_key(p) && !in_range(start, end, p), |p: int| m[p])
    } else {
        m
    }
}

/// A request that is well formed for pages that are free is granted, and
/// maps the pages of its range, with its permission bits, beside what was
/// mapped before.
pub proof fn lemma_map_free_range(m: Map<int, u8>, start: VirtAddr, end: VirtAddr, perm: u8)
    requires
        start.spec_aligned(),
        end.spec_aligned(),
        valid_perm(perm),
        forall|p: int| in_range(start, end, p) ==> !m.contains_key(p),
    ensures
        spec_map_result(m, start, end, perm) is Ok,
        forall|p: int| in_range(start, end, p) ==> spec_map(m, start, end, perm).contains_key(p) && spec_map(
            m,
            start,
            end,
            perm,
        )[p] == perm,
        forall|p: int|
            m.contains_key(p) ==> spec_map(m, start, end, perm).contains_key(p) && spec_map(m, start, end, perm)[p]
                == m[p],
        forall|p: int| spec_map(m, start, end, perm).contains_key(p) ==> m.contains_key(p) || in_range(start, end, p),
{
}

/// A request for a range of which one page is mapped already is refused,
/// and leaves every mapping as it was.
pub proof fn lemma_map_taken_range(m: Map<int, u8>, start: VirtAddr, end: VirtAddr, perm: u8, page: int)
    requires
        in_range(start, end, page),
        m.contains_key(page),
    ensures
        spec_map_result(m, start, end, perm) is Err,
        start.spec_aligned() && end.spec_aligned() && valid_perm(perm) ==> spec_map_result(m, start, end, perm)
            == Err::<(), MapError>(MapError::OverlappingMapping),
        spec_map(m, start, end, perm) == m,
{
}

/// Two requests for ranges that share no page, both well formed and both
/// for pages that are free, are both granted, in either order; a third
/// request that shares a page with one of them is then refused, and leaves
/// both mappings as they were.
pub proof fn lemma_two_maps_then_overlap(
    m: Map<int, u8>,
    first: (VirtAddr, VirtAddr, u8),
    second: (VirtAddr, VirtAddr, u8),
    third: (VirtAddr, VirtAddr, u8),
    page: int,
)
    requires
        first.0.spec_aligned() && first.1.spec_aligned() && valid_perm(first.2),
        second.0.spec_aligned() && second.1.spec_aligned() && valid_perm(second.2),
        forall|p: int| in_range(first.0, first.1, p) ==> !m.contains_key(p),
        forall|p: int| in_range(second.0, second.1, p) ==> !m.contains_key(p),
        forall|p: int| !(in_range(first.0, first.1, p) && in_range(second.0, second.1, p)),
        in_range(third.0, third.1, page),
        in_range(first.0, first.1, page) || in_range(second.0, second.1, page),
    ensures
        ({
            let m1 = spec_map(m, first.0, first.1, first.2);
            let m2 = spec_map(m1, second.0, second.1, second.2);
            &&& spec_map_result(m, first.0, first.1, first.2) is Ok
            &&& spec_map_result(m1, second.0, second.1, second.2) is Ok
            &&& spec_map_result(m2, third.0, third.1, third.2) is Err
            &&& spec_map(m2, third.0, third.1, third.2) == m2
            &&& forall|p: int| in_range(first.0, first.1, p) ==> m2.contains_key(p) && m2[p] == first.2
            &&& forall|p: int| in_range(second.0, second.1, p) ==> m2.contains_key(p) && m2[p] == second.2
        }),
{
    let m1 = spec_map(m, first.0, first.1, first.2);
    lemma_map_free_range(m, first.0, first.1, first.2);
    assert forall|p: int| in_range(second.0, second.1, p) implies !m1.contains_key(p) by {
        assert(!(in_range(first.0, first.1, p) && in_range(second.0, second.1, p)));
    }
    lemma_map_free_range(m1, second.0, second.1, second.2);
    let m2 = spec_map(m1, second.0, second.1, second.2);
    assert(m2.contains_key(page));
    lemma_map_taken_range(m2, third.0, third.1, third.2, page);
    assert forall|p: int| in_range(first.0, first.1, p) implies m2.contains_key(p) && m2[p] == first.2 by {
        assert(!(in_range(first.0, first.1, p) && in_range(second.0, second.1, p)));
        assert(m1.contains_key(p) && m1[p] == first.2);
    }
}

/// A request to unmap a range of which one page is not mapped is refused,
/// and leaves every mapping as it was.
pub proof fn lemma_unmap_all_or_nothing(m: Map<int, u8>, start: VirtAddr, end: VirtAddr, page: int)
    requires
        in_range(start, end, page),
        !m.contains_key(page),
    ensures
        spec_unmap_result(m, start, end) is Err,
        start.spec_aligned() && end.spec_aligned() ==> spec_unmap_result(m, start, end) == Err::<(), MapError>(
            MapError::PartiallyUnmappedRange,
        ),
        spec_unmap(m, start, end) == m,
{
}

/// A request to unmap a range that is mapped whole is granted; it unmaps
/// the pages of the range and no other.
pub proof fn lemma_unmap_mapped_range(m: Map<int, u8>, start: VirtAddr, end: VirtAddr)
    requires
        start.spec_aligned(),
        end.spec_aligned(),
        forall|p: int| in_range(start, end, p) ==> m.contains_key(p),
    ensures
        spec_unmap_result(m, start, end) is Ok,
        forall|p: int| in_range(start, end, p) ==> !spec_unmap(m, start, end).contains_key(p),
        forall|p: int|
            m.contains_key(p) && !in_range(start, end, p) ==> spec_unmap(m, start, end).contains_key(p)
                && spec_unmap(m, start, end)[p] == m[p],
{
}

/// The mapped regions of one address space.
pub struct MemorySet {
    areas: Vec<MapArea>,
}

impl View for MemorySet {
    type V = Map<int, u8>;

    /// The mapped pages, each with its permission bits.
    closed spec fn view(&self) -> Map<int, u8> {
        pages_of(self.areas@)
    }
}

impl MemorySet {
    #[verifier::type_invariant]
    spec fn inv(self) -> bool {
        all_wf(self.areas@) && sorted(self.areas@)
    }

    /// An address space that maps nothing.
    pub fn new_bare() -> (r: Self)
        ensures
            r@ == Map::<int, u8>::empty(),
    {
        let r = MemorySet { areas: Vec::new() };
        assert(r@ =~= Map::<int, u8>::empty());
        r
    }

    /// Does nothing when it runs. It tells a verified caller what holds of
    /// every address space: each mapped page can be read, written or
    /// executed, and has no other permission bit.
    pub fn well_formed(&self)
        ensures
            forall|p: int| self@.contains_key(p) ==> valid_perm(#[trigger] self@[p]),
    {
        proof {
            use_type_invariant(self);
            assert forall|p: int| self@.contains_key(p) implies valid_perm(#[trigger] self@[p]) by {
                lemma_perm_at_valid(self.areas@, p);
            }
        }
    }

    /// The permission bits of page `vpn`, or `None` where the page is not
    /// mapped. A mapped page has a valid permission set.
    pub fn permission(&self, vpn: usize) -> (r: Option<u8>)
        ensures
            r is Some == self@.contains_key(vpn as int),
            r matches Some(perm) ==> perm == self@[vpn as int] && valid_perm(perm),
    {
        proof {
            use_type_invariant(self);
        }
        let mut i: usize = self.areas.len();
        assert(self.areas@.take(i as int) =~= self.areas@);
        while i > 0
            invariant
                0 <= i <= self.areas.len(),
                perm_at(self.areas@, vpn as int) == perm_at(self.areas@.take(i as int), vpn as int),
                all_wf(self.areas@),
            decreases i,
        {
            i = i - 1;
            let a = self.areas[i];
            proof {
                lemma_take_push(self.areas@, i as int);
                lemma_perm_at_push(self.areas@.take(i as int), a);
            }
            if a.start_vpn <= vpn && vpn < a.end_vpn {
                return Some(a.perm);
            }
        }
        proof {
            assert(self.areas@.take(0) =~= Seq::<MapArea>::empty());
        }
        None
    }

    /// A copy of the address space `other` that shares nothing with it.
    pub fn from_existed_user(other: &MemorySet) -> (r: Self)
        ensures
            r@ == other@,
    {
        proof {
            use_type_invariant(other);
        }
        let mut areas: Vec<MapArea> = Vec::new();
        let mut i: usize = 0;
        while i < other.areas.len()
            invariant
                0 <= i <= other.areas.len(),
                areas@ == other.areas@.take(i as int),
            decreases other.areas.len() - i,
        {
            areas.push(other.areas[i]);
            proof {
                lemma_take_push(other.areas@, i as int);
            }
            i = i + 1;
        }
        assert(areas@ =~= other.areas@);
        MemorySet { areas }
    }

    /// Maps the pages from `start` up to `end` with the permission bits
    /// `perm`. Both addresses must be page-aligned, `perm` must be a valid
    /// permission set, and no page of the range may be mapped already. A
    /// refused request changes nothing.
    pub fn map(&mut self, start: VirtAddr, end: VirtAddr, perm: u8) -> (r: Result<(), MapError>)
        ensures
            r == spec_map_result(old(self)@, start, end, perm),
            final(self)@ == spec_map(old(self)@, start, end, perm),
    {
        proof {
            use_type_invariant(&*self);
        }
        if !start.aligned() || !end.aligned() {
            return Err(MapError::MisalignedAddress);
        }
        if perm == 0 || perm > 7 {
            return Err(MapError::InvalidPermissionBits);
        }
        let s = start.floor();
        let e = end.floor();
        if s >= e {
            assert(self@ =~= spec_map(self@, start, end, perm));
            return Ok(());
        }
        let new_area = MapArea { start_vpn: s, end_vpn: e, perm };
        let ghost old_areas = self.areas@;
        let mut out: Vec<MapArea> = Vec::new();
        let mut placed = false;
        let mut i: usize = 0;
        while i < self.areas.len()
            invariant
                0 <= i <= self.areas.len(),
                self.areas@ == old_areas,
                all_wf(old_areas),
                sorted(old_areas),
                s < e,
                s == start.spec_floor(),
                e == end.spec_floor(),
                start.spec_aligned(),
                end.spec_aligned(),
                valid_perm(perm),
                new_area == (MapArea { start_vpn: s, end_vpn: e, perm }),
                new_area.wf(),
                forall|j: int| 0 <= j < i ==> !(old_areas[j].start_vpn < e && s < old_areas[j].end_vpn),
                !placed ==> forall|j: int| 0 <= j < i ==> old_areas[j].end_vpn <= s,
                placed ==> forall|j: int| i <= j < old_areas.len() ==> old_areas[j].start_vpn >= e,
                all_wf(out@),
                sorted(out@),
                forall|k: int|
                    0 <= k < out.len() ==> out[k] == new_area || exists|j: int|
                        0 <= j < i && out[k] == old_areas[j],
                forall|k: int| 0 <= k < out.len() && !placed ==> out[k] != new_area || out[k].end_vpn <= s,
                forall|p: int| #[trigger]
                    perm_at(out@, p) == if placed && new_area.contains(p) {
                        Some(perm)
                    } else {
                        perm_at(old_areas.take(i as int), p)
                    },
            decreases self.areas.len() - i,
        {
            let a = self.areas[i];
            assert(a.wf());
            if a.start_vpn < e && s < a.end_vpn {
                proof {
                    let shared: int = if s >= a.start_vpn {
                        s as int
                    } else {
                        a.start_vpn as int
                    };
                    assert(old_areas[i as int].contains(shared));
                    lemma_perm_at_some(old_areas, shared);
                    assert(in_range(start, end, shared) && self@.contains_key(shared));
                }
                return Err(MapError::OverlappingMapping);
            }
            if !placed && a.start_vpn >= e {
                proof {
                    lemma_perm_at_push(out@, new_area);
                    assert forall|j: int| i <= j < old_areas.len() implies old_areas[j].start_vpn >= e by {
                        if j > i {
                            assert(old_areas[i as int].end_vpn <= old_areas[j].start_vpn);
                        }
                    }
                    assert forall|k: int| 0 <= k < out.len() implies out[k].end_vpn <= s by {
                        if out[k] != new_area {
                            let j = choose|j: int| 0 <= j < i && out[k] == old_areas[j];
                        }
                    }
                }
                out.push(new_area);
                placed = true;
            }
            proof {
                lemma_perm_at_push(out@, a);
                lemma_take_push(old_areas, i as int);
                lemma_perm_at_push(old_areas.take(i as int), a);
                assert forall|k: int| 0 <= k < out.len() implies out[k].end_vpn <= a.start_vpn by {
                    if out[k] == new_area {
                    } else {
                        let j = choose|j: int| 0 <= j < i && out[k] == old_areas[j];
                        assert(old_areas[j].end_vpn <= old_areas[i as int].start_vpn);
                    }
                }
            }
            out.push(a);
            proof {
                assert forall|k: int| 0 <= k < out.len() implies out[k] == new_area || exists|j: int|
                    0 <= j < i + 1 && out[k] == old_areas[j] by {
                    if k == out.len() - 1 {
                        assert(out[k] == old_areas[i as int]);
                    } else if out[k] != new_area {
                        let j = choose|j: int| 0 <= j < i && out[k] == old_areas[j];
                        assert(0 <= j < i + 1 && out[k] == old_areas[j]);
                    }
                }
            }
            i = i + 1;
        }
        if !placed {
            proof {
                lemma_perm_at_push(out@, new_area);
                assert forall|k: int| 0 <= k < out.len() implies out[k].end_vpn <= s by {
                    if out[k] != new_area {
                        let j = choose|j: int| 0 <= j < i && out[k] == old_areas[j];
                    }
                }
            }
            out.push(new_area);
        }
        proof {
            assert(old_areas.take(i as int) =~= old_areas);
            assert forall|p: int| in_range(start, end, p) implies !self@.contains_key(p) by {
                lemma_perm_at_some(old_areas, p);
            }
            assert(pages_of(out@) =~= spec_map(self@, start, end, perm));
        }
        self.areas = out;
        Ok(())
    }

    /// Unmaps the pages from `start` up to `end`. Both addresses must be
    /// page-aligned and every page of the range must be mapped; a region that
    /// reaches beyond the range keeps its other pages. A refused request
    /// changes nothing.
    pub fn unmap(&mut self, start: VirtAddr, end: VirtAddr) -> (r: Result<(), MapError>)
        ensures
            r == spec_unmap_result(old(self)@, start, end),
            final(self)@ == spec_unmap(old(self)@, start, end),
    {
        proof {
            use_type_invariant(&*self);
        }
        if !start.aligned() || !end.aligned() {
            return Err(MapError::MisalignedAddress);
        }
        let s = start.floor();
        let e = end.floor();
        if s >= e {
            assert(self@ =~= spec_unmap(self@, start, end));
            return Ok(());
        }
        let ghost old_areas = self.areas@;
        let mut out: Vec<MapArea> = Vec::new();
        let mut cursor: usize = s;
        let mut i: usize = 0;
        while i < self.areas.len()
            invariant
                0 <= i <= self.areas.len(),
                self.areas@ == old_areas,
                all_wf(old_areas),
                sorted(old_areas),
                s < e,
                s == start.spec_floor(),
                e == end.spec_floor(),
                start.spec_aligned(),
                end.spec_aligned(),
                s <= cursor <= e,
                all_wf(out@),
                sorted(out@),
                i == 0 ==> out.len() == 0,
                i > 0 ==> forall|k: int| 0 <= k < out.len() ==> out[k].end_vpn <= old_areas[i - 1].end_vpn,
                forall|p: int| #[trigger]
                    perm_at(out@, p) == if s <= p < e {
                        None
                    } else {
                        perm_at(old_areas.take(i as int), p)
                    },
                forall|p: int| s <= p < cursor ==> perm_at(old_areas.take(i as int), p) is Some,
                cursor < e ==> forall|j: int| 0 <= j < i ==> !old_areas[j].contains(cursor as int),
            decreases self.areas.len() - i,
        {
            let a = self.areas[i];
            assert(a.wf());
            proof {
                lemma_take_push(old_areas, i as int);
                lemma_perm_at_push(old_areas.take(i as int), a);
                if i > 0 {
                    assert(old_areas[i - 1].end_vpn <= old_areas[i as int].start_vpn);
                }
            }
            if a.start_vpn < e && s < a.end_vpn {
                if a.start_vpn > cursor {
                    proof {
                        assert forall|j: int| 0 <= j < old_areas.len() implies !(#[trigger] old_areas[j]).contains(
                            cursor as int,
                        ) by {
                            if j > i {
                                assert(old_areas[i as int].end_vpn <= old_areas[j].start_vpn);
                            }
                        }
                        lemma_perm_at_some(old_areas, cursor as int);
                        assert(in_range(start, end, cursor as int) && !self@.contains_key(cursor as int));
                    }
                    return Err(MapError::PartiallyUnmappedRange);
                }
                if a.start_vpn < s {
                    let left = MapArea { start_vpn: a.start_vpn, end_vpn: s, perm: a.perm };
                    proof {
                        lemma_perm_at_push(out@, left);
                    }
                    out.push(left);
                }
                if a.end_vpn > e {
                    let right = MapArea { start_vpn: e, end_vpn: a.end_vpn, perm: a.perm };
                    proof {
                        lemma_perm_at_push(out@, right);
                    }
                    out.push(right);
                    cursor = e;
                } else {
                    cursor = a.end_vpn;
                }
                proof {
                    if cursor < e {
                        assert forall|j: int| 0 <= j < i + 1 implies !old_areas[j].contains(cursor as int) by {
                            if j < i {
                                assert(old_areas[j].end_vpn <= old_areas[i as int].start_vpn);
                            }
                        }
                    }
                }
            } else {
                proof {
                    lemma_perm_at_push(out@, a);
                }
                out.push(a);
            }
            i = i + 1;
        }
        proof {
            assert(old_areas.take(i as int) =~= old_areas);
        }
        if cursor < e {
            proof {
                lemma_perm_at_some(old_areas, cursor as int);
                assert(in_range(start, end, cursor as int) && !self@.contains_key(cursor as int));
            }
            return Err(MapError::PartiallyUnmappedRange);
        }
        proof {
            assert(pages_of(out@) =~= spec_unmap(self@, start, end));
        }
        self.areas = out;
        Ok(())
    }
}

} // verus!
