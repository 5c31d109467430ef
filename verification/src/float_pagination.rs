//! Float pagination: the selected float layout, its receipt verification,
//! and the FIFO float queue that places floats here, at the top or bottom of
//! a column, or carries them to the next page.
use vstd::prelude::*;
use crate::columns::{body_frame_at, body_frames, chained_at, frames_chained};
use crate::float_layout::{
    FloatClearance, FloatPlacementClass, StagingFloatBodyFragment, StagingFloatPaginationError, StagingFloatPlacement,
    StagingFloatQueueEntry, StagingFloatSelectedLayoutReceipt, StagingFloatSelectedPage, encoded_float_layout,
    manifest_eq,
};
use crate::math_receipt::text_fingerprint;
use crate::page_geometry::{
    DOCUMENT_BODY_FLOW, StagingAdvancedPageFrameKind, StagingSelectedAdvancedFrame, rect_contains,
    rect_within,
};

verus! {

/// Every queued float anchors in the body flow.
pub open spec fn queue_entry_anchored(e: StagingFloatQueueEntry) -> bool {
    e.anchor_body_flow_id == DOCUMENT_BODY_FLOW && e.anchor_position.flow_id == DOCUMENT_BODY_FLOW
}

/// A queue manifest: every entry anchors in the body flow and no float
/// occurs twice.
pub open spec fn queue_valid(q: Seq<StagingFloatQueueEntry>) -> bool {
    &&& forall|i: int| 0 <= i < q.len() ==> #[trigger] queue_entry_anchored(q[i])
    &&& forall|i: int, j: int| 0 <= i < j < q.len() ==> q[i].float_flow_id != q[j].float_flow_id
}

/// Two queue manifests list the same floats, in the same order, with the
/// same anchors and carry counts.
pub open spec fn queues_manifest_equal(a: Seq<StagingFloatQueueEntry>, b: Seq<StagingFloatQueueEntry>) -> bool {
    &&& a.len() == b.len()
    &&& forall|i: int| 0 <= i < a.len() ==> #[trigger] manifest_eq(a[i], b[i])
}

/// A body fragment lies in the frame of its column on its page.
pub open spec fn float_fragment_ok(page: StagingFloatSelectedPage, f: StagingFloatBodyFragment) -> bool {
    &&& f.column_index < page.frames@.len()
    &&& f.page_index == page.page_index
    &&& f.frame_flow_id == page.frames@[f.column_index as int].frame_flow_id
    &&& f.source_flow_id == DOCUMENT_BODY_FLOW
    &&& rect_within(page.frames@[f.column_index as int].rect, f.bounds)
}

/// A placement lies in the frame of its column on its page, asks no
/// clearance, is not a next-page decision, and has both its float and its
/// caption terminal.
pub open spec fn float_placement_ok(page: StagingFloatSelectedPage, p: StagingFloatPlacement) -> bool {
    &&& p.column_index < page.frames@.len()
    &&& p.page_index == page.page_index
    &&& p.frame_flow_id == page.frames@[p.column_index as int].frame_flow_id
    &&& p.source_flow_id == DOCUMENT_BODY_FLOW
    &&& p.clearance == FloatClearance::Zero
    &&& p.class != FloatPlacementClass::NextPage
    &&& p.float_terminal
    &&& p.caption_terminal
    &&& rect_within(page.frames@[p.column_index as int].rect, p.bounds)
}

/// Whether a body fragment is in column `c`.
pub open spec fn fragment_in_column(c: int) -> spec_fn(StagingFloatBodyFragment) -> bool {
    |f: StagingFloatBodyFragment| f.column_index == c
}

/// Whether a placement is in column `c`.
pub open spec fn placement_in_column(c: int) -> spec_fn(StagingFloatPlacement) -> bool {
    |p: StagingFloatPlacement| p.column_index == c
}

pub open spec fn fragment_ordinal() -> spec_fn(StagingFloatBodyFragment) -> u32 {
    |f: StagingFloatBodyFragment| f.frame_paint_ordinal
}

pub open spec fn placement_ordinal() -> spec_fn(StagingFloatPlacement) -> u32 {
    |p: StagingFloatPlacement| p.frame_paint_ordinal
}

/// The paint ordinals used in column `c` of a page: those of its body
/// fragments, then those of its placements.
pub open spec fn column_ordinals(page: StagingFloatSelectedPage, c: int) -> Seq<u32> {
    page.body_fragments@.filter(fragment_in_column(c)).map_values(fragment_ordinal()) + page.placements@.filter(
        placement_in_column(c),
    ).map_values(placement_ordinal())
}

/// Ordinals that are exactly `0..n` for their count `n`, each once.
pub open spec fn ordinals_exact(s: Seq<u32>) -> bool {
    &&& s.no_duplicates()
    &&& forall|i: int| 0 <= i < s.len() ==> s[i] < s.len()
}

/// The carry of queue entry `i` across the page boundary.
pub open spec fn carry_matches(page: StagingFloatSelectedPage, i: int) -> bool {
    let c = page.carries@[i];
    let e = page.queue_after@[i];
    &&& c.float_flow_id == e.float_flow_id
    &&& c.figure_node_id == e.figure_node_id
    &&& c.source_page_index == page.page_index
    &&& c.target_page_index == (if page.page_index < u32::MAX { (page.page_index + 1) as u32 } else { 0u32 })
    &&& c.carry_count == e.carry_count
}

/// The flow position where float page `k` must start.
pub open spec fn float_page_entry(pages: Seq<StagingFloatSelectedPage>, k: int) -> u32 {
    if k <= 0 {
        0
    } else {
        pages[k - 1].frames@.last().after_position.ordinal
    }
}

/// Page `k` is well formed and continues the previous page: its frames tile
/// the body flow from where the previous page ended, its queue starts as
/// the previous page's queue ended, its fragments and placements lie in
/// their frames, each column's paint ordinals are `0..n`, and every float
/// left in the queue is carried to the next page.
pub open spec fn float_page_valid(pages: Seq<StagingFloatSelectedPage>, k: int) -> bool {
    let page = pages[k];
    &&& page.page_index == k
    &&& page.frames@.len() > 0
    &&& body_frames(page.frames@)
    &&& page.frames@[0].before_position.ordinal == float_page_entry(pages, k)
    &&& frames_chained(page.frames@)
    &&& queue_valid(page.queue_before@)
    &&& queue_valid(page.queue_after@)
    &&& k == 0 ==> page.queue_before@.len() == 0
    &&& k > 0 ==> queues_manifest_equal(pages[k - 1].queue_after@, page.queue_before@)
    &&& forall|i: int| 0 <= i < page.body_fragments@.len() ==> #[trigger] float_fragment_ok(page, page.body_fragments@[i])
    &&& forall|i: int| 0 <= i < page.placements@.len() ==> #[trigger] float_placement_ok(page, page.placements@[i])
    &&& forall|c: int| 0 <= c < page.frames@.len() ==> #[trigger] ordinals_exact(column_ordinals(page, c))
    &&& page.carries@.len() == page.queue_after@.len()
    &&& forall|i: int| 0 <= i < page.carries@.len() ==> #[trigger] carry_matches(page, i)
}

pub open spec fn placement_id() -> spec_fn(StagingFloatPlacement) -> u32 {
    |p: StagingFloatPlacement| p.float_flow_id
}

/// The float ids placed on the pages, in page order.
pub open spec fn placement_ids(pages: Seq<StagingFloatSelectedPage>) -> Seq<u32>
    decreases pages.len(),
{
    if pages.len() == 0 {
        Seq::empty()
    } else {
        placement_ids(pages.drop_last()) + pages.last().placements@.map_values(placement_id())
    }
}

/// The ids placed on the first `m` pages begin the ids placed on all pages.
proof fn lemma_placement_ids_prefix(pages: Seq<StagingFloatSelectedPage>, m: int)
    requires
        0 <= m <= pages.len(),
    ensures
        placement_ids(pages.take(m)).len() <= placement_ids(pages).len(),
        forall|t: int|
            0 <= t < placement_ids(pages.take(m)).len() ==> #[trigger] placement_ids(pages.take(m))[t]
                == placement_ids(pages)[t],
    decreases pages.len(),
{
    if m == pages.len() {
        assert(pages.take(m) =~= pages);
    } else {
        assert(pages.drop_last().take(m) =~= pages.take(m));
        lemma_placement_ids_prefix(pages.drop_last(), m);
    }
}

/// Selected float pages and their receipt.
#[derive(Debug)]
pub struct StagingFloatSelectedLayout {
    pages: Vec<StagingFloatSelectedPage>,
    receipt: StagingFloatSelectedLayoutReceipt,
}

impl StagingFloatSelectedLayout {
    pub closed spec fn spec_pages(&self) -> Seq<StagingFloatSelectedPage> {
        self.pages@
    }

    pub closed spec fn spec_receipt(&self) -> StagingFloatSelectedLayoutReceipt {
        self.receipt
    }

    /// What `verify_receipt` checks: every page is valid and continues the
    /// previous one, no float is placed twice, the last page leaves the
    /// queue empty and ends in a terminal frame, and the receipt is the
    /// canonical JSON of the pages and its fingerprint.
    pub open spec fn receipt_valid(&self) -> bool {
        let pages = self.spec_pages();
        let r = self.spec_receipt();
        &&& pages.len() > 0
        &&& forall|k: int| 0 <= k < pages.len() ==> #[trigger] float_page_valid(pages, k)
        &&& placement_ids(pages).no_duplicates()
        &&& pages.last().queue_after@.len() == 0
        &&& pages.last().frames@.last().terminal
        &&& r.spec_canonical_jcs() == encoded_float_layout(
            r.spec_profile_receipt_sha256(),
            r.spec_flow_registry_sha256(),
            pages,
        )
        &&& r.spec_selected_layout_sha256() == text_fingerprint(r.spec_canonical_jcs())
    }

    /// A selected layout from pages and a receipt received from elsewhere,
    /// to be checked with `verify_receipt`.
    pub fn from_parts(pages: Vec<StagingFloatSelectedPage>, receipt: StagingFloatSelectedLayoutReceipt) -> (s: Self)
        ensures
            s.spec_pages() == pages@,
            s.spec_receipt() == receipt,
    {
        StagingFloatSelectedLayout { pages, receipt }
    }

    /// The pages and the receipt.
    pub fn into_parts(self) -> (parts: (Vec<StagingFloatSelectedPage>, StagingFloatSelectedLayoutReceipt))
        ensures
            parts.0@ == self.spec_pages(),
            parts.1 == self.spec_receipt(),
    {
        (self.pages, self.receipt)
    }

    pub fn pages(&self) -> (v: &[StagingFloatSelectedPage])
        ensures
            v@ == self.spec_pages(),
    {
        self.pages.as_slice()
    }

    pub fn receipt(&self) -> (v: &StagingFloatSelectedLayoutReceipt)
        ensures
            *v == self.spec_receipt(),
    {
        &self.receipt
    }
}

/// One step of a filtered and mapped prefix.
proof fn lemma_filter_map_step<A, B>(s: Seq<A>, pred: spec_fn(A) -> bool, f: spec_fn(A) -> B, i: int)
    requires
        0 <= i < s.len(),
    ensures
        s.take(i + 1).filter(pred).map_values(f) == (if pred(s[i]) {
            s.take(i).filter(pred).map_values(f).push(f(s[i]))
        } else {
            s.take(i).filter(pred).map_values(f)
        }),
{
    reveal(Seq::filter);
    assert(s.take(i + 1).drop_last() =~= s.take(i));
    assert(s.take(i + 1).last() == s[i]);
    if pred(s[i]) {
        assert(s.take(i).filter(pred).push(s[i]).map_values(f) =~= s.take(i).filter(pred).map_values(f).push(
            f(s[i]),
        ));
    }
}

/// Whether `q` is a valid queue manifest.
fn check_queue(q: &Vec<StagingFloatQueueEntry>) -> (ok: bool)
    ensures
        ok == queue_valid(q@),
{
    let mut i: usize = 0;
    while i < q.len()
        invariant
            0 <= i <= q@.len(),
            forall|t: int| 0 <= t < i ==> #[trigger] queue_entry_anchored(q@[t]),
            forall|a: int, b: int| 0 <= a < b < i ==> q@[a].float_flow_id != q@[b].float_flow_id,
        decreases q.len() - i,
    {
        let entry = q[i];
        if entry.anchor_body_flow_id != DOCUMENT_BODY_FLOW || entry.anchor_position.flow_id != DOCUMENT_BODY_FLOW {
            assert(!queue_entry_anchored(q@[i as int]));
            return false;
        }
        let mut j: usize = 0;
        while j < i
            invariant
                0 <= j <= i < q@.len(),
                entry == q@[i as int],
                forall|a: int| 0 <= a < j ==> q@[a].float_flow_id != entry.float_flow_id,
            decreases i - j,
        {
            if q[j].float_flow_id == entry.float_flow_id {
                return false;
            }
            j = j + 1;
        }
        i = i + 1;
    }
    true
}

/// Whether two queue manifests agree entry by entry.
fn check_manifest(a: &Vec<StagingFloatQueueEntry>, b: &Vec<StagingFloatQueueEntry>) -> (ok: bool)
    ensures
        ok == queues_manifest_equal(a@, b@),
{
    if a.len() != b.len() {
        return false;
    }
    let mut i: usize = 0;
    while i < a.len()
        invariant
            0 <= i <= a@.len(),
            a@.len() == b@.len(),
            forall|t: int| 0 <= t < i ==> #[trigger] manifest_eq(a@[t], b@[t]),
        decreases a.len() - i,
    {
        let x = a[i];
        let y = b[i];
        if x.float_flow_id != y.float_flow_id || x.figure_node_id != y.figure_node_id || x.anchor_body_flow_id
            != y.anchor_body_flow_id || x.anchor_position != y.anchor_position || x.carry_count != y.carry_count {
            assert(!manifest_eq(a@[i as int], b@[i as int]));
            return false;
        }
        i = i + 1;
    }
    true
}

/// Whether the frames are body frames, column `j` at index `j`, chained,
/// the first starting at `entry`.
fn check_float_frames(frames: &Vec<StagingSelectedAdvancedFrame>, entry: u32) -> (ok: bool)
    ensures
        ok == (frames@.len() > 0 && body_frames(frames@) && frames@[0].before_position.ordinal == entry
            && frames_chained(frames@)),
{
    if frames.len() == 0 || frames[0].before_position.ordinal != entry {
        return false;
    }
    let mut j: usize = 0;
    while j < frames.len()
        invariant
            0 <= j <= frames@.len(),
            forall|i: int| 0 <= i < j ==> #[trigger] body_frame_at(frames@[i], i),
            forall|i: int| 0 < i < j ==> #[trigger] chained_at(frames@, i),
        decreases frames.len() - j,
    {
        let frame = &frames[j];
        let column_ok = match frame.column_index {
            Some(c) => j <= u32::MAX as usize && c == j as u32,
            None => false,
        };
        let kind_ok = match frame.kind {
            StagingAdvancedPageFrameKind::Body => true,
            _ => false,
        };
        let frame_ok = kind_ok && column_ok && frame.source_flow_id == DOCUMENT_BODY_FLOW
            && frame.before_position.flow_id == DOCUMENT_BODY_FLOW && frame.after_position.flow_id
            == DOCUMENT_BODY_FLOW;
        assert(frame_ok == body_frame_at(frames@[j as int], j as int));
        if !frame_ok {
            return false;
        }
        if j > 0 {
            let link = frames[j - 1].after_position.ordinal == frame.before_position.ordinal;
            assert(link == chained_at(frames@, j as int));
            if !link {
                return false;
            }
        }
        j = j + 1;
    }
    true
}

fn check_float_fragment(page: &StagingFloatSelectedPage, f: &StagingFloatBodyFragment) -> (ok: bool)
    ensures
        ok == float_fragment_ok(*page, *f),
{
    if f.column_index as usize >= page.frames.len() {
        return false;
    }
    let frame = &page.frames[f.column_index as usize];
    f.page_index == page.page_index && f.frame_flow_id == frame.frame_flow_id && f.source_flow_id
        == DOCUMENT_BODY_FLOW && rect_contains(frame.rect, f.bounds)
}

fn check_float_placement(page: &StagingFloatSelectedPage, p: &StagingFloatPlacement) -> (ok: bool)
    ensures
        ok == float_placement_ok(*page, *p),
{
    if p.column_index as usize >= page.frames.len() {
        return false;
    }
    let frame = &page.frames[p.column_index as usize];
    let next_page = match p.class {
        FloatPlacementClass::NextPage => true,
        _ => false,
    };
    let zero_clearance = match p.clearance {
        FloatClearance::Zero => true,
        FloatClearance::Other => false,
    };
    zero_clearance && p.page_index == page.page_index && p.frame_flow_id == frame.frame_flow_id && p.source_flow_id
        == DOCUMENT_BODY_FLOW && !next_page && p.float_terminal && p.caption_terminal && rect_contains(
        frame.rect,
        p.bounds,
    )
}

/// The paint ordinals of column `c`, fragments first.
fn collect_column_ordinals(page: &StagingFloatSelectedPage, c: u32) -> (v: Vec<u32>)
    ensures
        v@ == column_ordinals(*page, c as int),
{
    let ghost fpred = fragment_in_column(c as int);
    let ghost fmap = fragment_ordinal();
    let ghost ppred = placement_in_column(c as int);
    let ghost pmap = placement_ordinal();
    let mut v: Vec<u32> = Vec::new();
    let mut i: usize = 0;
    assert(page.body_fragments@.take(0).filter(fpred).map_values(fmap) =~= Seq::<u32>::empty()) by {
        reveal(Seq::filter);
    }
    while i < page.body_fragments.len()
        invariant
            0 <= i <= page.body_fragments@.len(),
            fpred == fragment_in_column(c as int),
            fmap == fragment_ordinal(),
            v@ == page.body_fragments@.take(i as int).filter(fpred).map_values(fmap),
        decreases page.body_fragments.len() - i,
    {
        proof {
            lemma_filter_map_step(page.body_fragments@, fpred, fmap, i as int);
        }
        let f = page.body_fragments[i];
        assert(fpred(f) == (f.column_index == c));
        assert(fmap(f) == f.frame_paint_ordinal);
        if f.column_index == c {
            v.push(f.frame_paint_ordinal);
        }
        i = i + 1;
    }
    assert(page.body_fragments@.take(page.body_fragments@.len() as int) =~= page.body_fragments@);
    let ghost head = v@;
    let mut j: usize = 0;
    assert(page.placements@.take(0).filter(ppred).map_values(pmap) =~= Seq::<u32>::empty()) by {
        reveal(Seq::filter);
    }
    assert(v@ =~= head + page.placements@.take(0).filter(ppred).map_values(pmap));
    while j < page.placements.len()
        invariant
            0 <= j <= page.placements@.len(),
            ppred == placement_in_column(c as int),
            pmap == placement_ordinal(),
            v@ == head + page.placements@.take(j as int).filter(ppred).map_values(pmap),
        decreases page.placements.len() - j,
    {
        proof {
            lemma_filter_map_step(page.placements@, ppred, pmap, j as int);
        }
        let p = page.placements[j];
        assert(ppred(p) == (p.column_index == c));
        assert(pmap(p) == p.frame_paint_ordinal);
        if p.column_index == c {
            v.push(p.frame_paint_ordinal);
            assert(v@ =~= head + page.placements@.take(j + 1).filter(ppred).map_values(pmap));
        }
        j = j + 1;
    }
    assert(page.placements@.take(page.placements@.len() as int) =~= page.placements@);
    v
}

/// Whether the ordinals are exactly `0..n`, each once.
fn check_ordinals_exact(ords: &Vec<u32>) -> (ok: bool)
    ensures
        ok == ordinals_exact(ords@),
{
    let n = ords.len();
    let mut seen: Vec<bool> = Vec::new();
    while seen.len() < n
        invariant
            seen@.len() <= n,
            forall|o: int| 0 <= o < seen@.len() ==> !seen@[o],
        decreases n - seen.len(),
    {
        seen.push(false);
    }
    let mut i: usize = 0;
    while i < n
        invariant
            0 <= i <= n,
            n == ords@.len(),
            seen@.len() == n,
            forall|a: int, b: int| 0 <= a < b < i ==> ords@[a] != ords@[b],
            forall|t: int| 0 <= t < i ==> ords@[t] < n,
            forall|o: int| 0 <= o < n ==> (seen@[o] <==> exists|t: int| 0 <= t < i && ords@[t] == o),
        decreases n - i,
    {
        let o = ords[i];
        if o as usize >= n {
            return false;
        }
        if seen[o as usize] {
            let ghost t = choose|t: int| 0 <= t < i && ords@[t] == o as int;
            assert(ords@[t] == ords@[i as int]);
            assert(!ords@.no_duplicates());
            return false;
        }
        seen.set(o as usize, true);
        assert forall|x: int| 0 <= x < n implies (seen@[x] <==> exists|t: int| 0 <= t < i + 1 && ords@[t] == x) by {
            if x == o {
                assert(ords@[i as int] == x);
            } else if exists|t: int| 0 <= t < i + 1 && ords@[t] == x {
                let t = choose|t: int| 0 <= t < i + 1 && ords@[t] == x;
                assert(t != i);
            }
        }
        i = i + 1;
    }
    assert(ords@.no_duplicates());
    true
}

/// Whether each carry matches its queue entry and there is one per entry.
fn check_carries(page: &StagingFloatSelectedPage) -> (ok: bool)
    ensures
        ok == (page.carries@.len() == page.queue_after@.len() && forall|i: int|
            0 <= i < page.carries@.len() ==> #[trigger] carry_matches(*page, i)),
{
    if page.carries.len() != page.queue_after.len() {
        return false;
    }
    let target: u32 = if page.page_index < u32::MAX {
        page.page_index + 1
    } else {
        0
    };
    let mut i: usize = 0;
    while i < page.carries.len()
        invariant
            0 <= i <= page.carries@.len(),
            page.carries@.len() == page.queue_after@.len(),
            target == (if page.page_index < u32::MAX { (page.page_index + 1) as u32 } else { 0u32 }),
            forall|t: int| 0 <= t < i ==> #[trigger] carry_matches(*page, t),
        decreases page.carries.len() - i,
    {
        let c = page.carries[i];
        let e = page.queue_after[i];
        if c.float_flow_id != e.float_flow_id || c.figure_node_id != e.figure_node_id || c.source_page_index
            != page.page_index || c.target_page_index != target || c.carry_count != e.carry_count {
            assert(!carry_matches(*page, i as int));
            return false;
        }
        i = i + 1;
    }
    true
}

/// Whether `x` occurs in `v`.
fn contains_id(v: &Vec<u32>, x: u32) -> (found: bool)
    ensures
        found <==> exists|t: int| 0 <= t < v@.len() && v@[t] == x,
{
    let mut t: usize = 0;
    while t < v.len()
        invariant
            0 <= t <= v@.len(),
            forall|u: int| 0 <= u < t ==> v@[u] != x,
        decreases v.len() - t,
    {
        if v[t] == x {
            return true;
        }
        t = t + 1;
    }
    false
}

/// Whether page `k` is valid and continues page `k - 1`.
fn check_float_page(pages: &[StagingFloatSelectedPage], k: usize) -> (ok: bool)
    requires
        k < pages@.len(),
        k > 0 ==> pages@[k - 1].frames@.len() > 0,
    ensures
        ok == float_page_valid(pages@, k as int),
{
    let page = &pages[k];
    assert(*page == pages@[k as int]);
    if k > u32::MAX as usize || page.page_index != k as u32 {
        return false;
    }
    let entry: u32 = if k == 0 {
        0
    } else {
        let previous = &pages[k - 1].frames;
        previous[previous.len() - 1].after_position.ordinal
    };
    assert(float_page_entry(pages@, k as int) == entry);
    if !check_float_frames(&page.frames, entry) {
        return false;
    }
    if !check_queue(&page.queue_before) || !check_queue(&page.queue_after) {
        assert(!queue_valid(pages@[k as int].queue_before@) || !queue_valid(pages@[k as int].queue_after@));
        return false;
    }
    if k == 0 {
        if page.queue_before.len() != 0 {
            return false;
        }
    } else if !check_manifest(&pages[k - 1].queue_after, &page.queue_before) {
        return false;
    }
    let mut i: usize = 0;
    while i < page.body_fragments.len()
        invariant
            0 <= i <= page.body_fragments@.len(),
            k < pages@.len(),
            *page == pages@[k as int],
            forall|t: int| 0 <= t < i ==> #[trigger] float_fragment_ok(*page, page.body_fragments@[t]),
        decreases page.body_fragments.len() - i,
    {
        if !check_float_fragment(page, &page.body_fragments[i]) {
            assert(!float_fragment_ok(pages@[k as int], pages@[k as int].body_fragments@[i as int]));
            return false;
        }
        i = i + 1;
    }
    let mut j: usize = 0;
    while j < page.placements.len()
        invariant
            0 <= j <= page.placements@.len(),
            k < pages@.len(),
            *page == pages@[k as int],
            forall|t: int| 0 <= t < j ==> #[trigger] float_placement_ok(*page, page.placements@[t]),
        decreases page.placements.len() - j,
    {
        if !check_float_placement(page, &page.placements[j]) {
            assert(!float_placement_ok(pages@[k as int], pages@[k as int].placements@[j as int]));
            return false;
        }
        j = j + 1;
    }
    let mut c: usize = 0;
    while c < page.frames.len()
        invariant
            0 <= c <= page.frames@.len(),
            k < pages@.len(),
            *page == pages@[k as int],
            body_frames(page.frames@),
            forall|t: int| 0 <= t < c ==> #[trigger] ordinals_exact(column_ordinals(*page, t)),
        decreases page.frames.len() - c,
    {
        assert(body_frame_at(page.frames@[c as int], c as int));
        let ords = collect_column_ordinals(page, c as u32);
        if !check_ordinals_exact(&ords) {
            assert(!ordinals_exact(column_ordinals(pages@[k as int], c as int)));
            return false;
        }
        c = c + 1;
    }
    check_carries(page)
}

impl StagingFloatSelectedLayout {
    /// Re-check every page, that no float is placed twice, that the last
    /// page empties the queue and ends the flow, and recompute the
    /// canonical JSON and fingerprint.
    pub fn verify_receipt(&self) -> (r: Result<(), StagingFloatPaginationError>)
        ensures
            r is Ok <==> self.receipt_valid(),
            r matches Err(e) ==> e == StagingFloatPaginationError::SelectedReceiptMismatch,
    {
        let n = self.pages.len();
        if n == 0 {
            return Err(StagingFloatPaginationError::SelectedReceiptMismatch);
        }
        let mut k: usize = 0;
        while k < n
            invariant
                0 <= k <= n,
                n == self.pages@.len(),
                forall|j: int| 0 <= j < k ==> #[trigger] float_page_valid(self.pages@, j),
            decreases n - k,
        {
            if k > 0 {
                assert(float_page_valid(self.pages@, k - 1));
            }
            if !check_float_page(self.pages.as_slice(), k) {
                return Err(StagingFloatPaginationError::SelectedReceiptMismatch);
            }
            k = k + 1;
        }
        let ghost pages = self.pages@;
        let ghost id = placement_id();
        let mut placed: Vec<u32> = Vec::new();
        let mut p: usize = 0;
        assert(pages.take(0) =~= Seq::<StagingFloatSelectedPage>::empty());
        assert(placed@ =~= placement_ids(pages.take(0)));
        while p < n
            invariant
                0 <= p <= n,
                n == pages.len(),
                pages == self.pages@,
                id == placement_id(),
                placed@ == placement_ids(pages.take(p as int)),
                placed@.no_duplicates(),
            decreases n - p,
        {
            let page = &self.pages[p];
            let ghost head = placed@;
            let mut i: usize = 0;
            assert(placed@ =~= head + page.placements@.take(0).map_values(id));
            while i < page.placements.len()
                invariant
                    0 <= i <= page.placements@.len(),
                    p < n,
                    n == pages.len(),
                    pages == self.pages@,
                    *page == pages[p as int],
                    id == placement_id(),
                    head == placement_ids(pages.take(p as int)),
                    placed@ == head + page.placements@.take(i as int).map_values(id),
                    placed@.no_duplicates(),
                decreases page.placements.len() - i,
            {
                let fid = page.placements[i].float_flow_id;
                if contains_id(&placed, fid) {
                    proof {
                        let t = choose|t: int| 0 <= t < placed@.len() && placed@[t] == fid;
                        let whole = placement_ids(pages.take(p + 1));
                        assert(pages.take(p + 1).drop_last() =~= pages.take(p as int));
                        assert(pages.take(p + 1).last() == pages[p as int]);
                        assert(whole =~= head + page.placements@.map_values(id));
                        assert(whole[t] == fid);
                        assert(whole[placed@.len() as int] == fid);
                        lemma_placement_ids_prefix(pages, p + 1);
                        let all = placement_ids(pages);
                        assert(all[t] == whole[t]);
                        assert(all[placed@.len() as int] == whole[placed@.len() as int]);
                        assert(!all.no_duplicates());
                    }
                    return Err(StagingFloatPaginationError::SelectedReceiptMismatch);
                }
                placed.push(fid);
                assert(placed@ =~= head + page.placements@.take(i + 1).map_values(id));
                i = i + 1;
            }
            assert(page.placements@.take(page.placements@.len() as int) =~= page.placements@);
            assert(pages.take(p + 1).drop_last() =~= pages.take(p as int));
            assert(pages.take(p + 1).last() == pages[p as int]);
            assert(placed@ =~= placement_ids(pages.take(p + 1)));
            p = p + 1;
        }
        assert(pages.take(n as int) =~= pages);
        assert(float_page_valid(self.pages@, n - 1));
        let last = &self.pages[n - 1];
        if last.queue_after.len() != 0 || !last.frames[last.frames.len() - 1].terminal {
            return Err(StagingFloatPaginationError::SelectedReceiptMismatch);
        }
        if !self.receipt.certifies(self.pages.as_slice()) {
            return Err(StagingFloatPaginationError::SelectedReceiptMismatch);
        }
        Ok(())
    }
}

} // verus!
