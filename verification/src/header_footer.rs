//! Header and footer pagination: canonical body pages, one selected page
//! per body page with its master's boxes, margins and frames, repeated
//! region content with per-master repetition indexes, and the selected
//! layout receipt.
use vstd::prelude::*;
use crate::body_errors::NodeId;
use crate::digest::fingerprint_eq;
use crate::math_receipt::{fingerprint_text, text_fingerprint};
use crate::page_geometry::{
    DOCUMENT_BODY_FLOW, PaginationLimits, Rect, StagingAdvancedFlowPosition, StagingAdvancedPageFrameKind,
    StagingPageMargins, StagingPdfPageBox, StagingSelectedAdvancedFrame, StagingSelectedPageBoxes,
    encoded_bool, encoded_boxes, encoded_margins, encoded_optional, encoded_position, encoded_rect,
    frame_kind_name, push_bool, push_boxes, push_margins, push_optional, push_position, push_rect,
};
use crate::text::{
    decimal, joined, json_string, lemma_joined_step, push_char, push_hash, push_json_str, push_u64, quoted_hex,
};

verus! {

pub const ADVANCED_SELECTED_LAYOUT_ALGORITHM: &'static str = "typaxis.advanced-pagination-selected-layout/1";

/// A body page: the body flow items `before_position..after_position`.
#[derive(Clone, Copy, Debug, PartialEq, Eq, Structural)]
pub struct StagingHeaderFooterBodyPage {
    pub page_index: u32,
    pub before_position: u32,
    pub after_position: u32,
    pub terminal: bool,
}

impl StagingHeaderFooterBodyPage {
    pub fn page_index(&self) -> (v: u32)
        ensures
            v == self.page_index,
    {
        self.page_index
    }

    pub fn before_position(&self) -> (v: u32)
        ensures
            v == self.before_position,
    {
        self.before_position
    }

    pub fn after_position(&self) -> (v: u32)
        ensures
            v == self.after_position,
    {
        self.after_position
    }

    pub fn terminal(&self) -> (v: bool)
        ensures
            v == self.terminal,
    {
        self.terminal
    }
}

/// Why header and footer pagination was refused.
#[derive(Clone, Debug, PartialEq, Eq)]
pub enum StagingHeaderFooterPaginationError {
    EmptyBodyPages,
    NonCanonicalBodyPage,
    BodyCursorMismatch,
    PageLimit,
    FragmentLimit,
    PageNumberOverflow,
    MasterSelection,
    MasterReceiptMismatch,
    SelectedReceiptMismatch,
    Geometry,
    RegionOversize { master_id: String, kind: StagingPageRegionKind },
    ArithmeticOverflow,
    AllocationFailure,
}

/// Body pages cut at the authored page breaks: page `k` runs from the block
/// after the previous break to the block after the `k`-th break; the last
/// page runs to the end (a trailing break opens one final blank page).
pub open spec fn break_pages(breaks: Seq<bool>, start: int, index: int, pages: Seq<StagingHeaderFooterBodyPage>) -> Seq<
    StagingHeaderFooterBodyPage,
>
    decreases breaks.len() - index,
{
    if index >= breaks.len() || index < 0 {
        pages.push(
            StagingHeaderFooterBodyPage {
                page_index: pages.len() as u32,
                before_position: start as u32,
                after_position: breaks.len() as u32,
                terminal: true,
            },
        )
    } else if breaks[index] {
        break_pages(
            breaks,
            index + 1,
            index + 1,
            pages.push(
                StagingHeaderFooterBodyPage {
                    page_index: pages.len() as u32,
                    before_position: start as u32,
                    after_position: (index + 1) as u32,
                    terminal: false,
                },
            ),
        )
    } else {
        break_pages(breaks, start, index + 1, pages)
    }
}

/// Number of page breaks among the first `n` blocks.
pub open spec fn break_count(breaks: Seq<bool>, n: int) -> nat
    decreases n,
{
    if n <= 0 || n > breaks.len() {
        0
    } else {
        break_count(breaks, n - 1) + if breaks[n - 1] {
            1nat
        } else {
            0nat
        }
    }
}

proof fn lemma_break_count_bound(breaks: Seq<bool>, n: int)
    requires
        0 <= n <= breaks.len(),
    ensures
        break_count(breaks, n) <= n,
    decreases n,
{
    if n > 0 {
        lemma_break_count_bound(breaks, n - 1);
    }
}

/// Pages cut so far form a canonical prefix ending at `start`.
spec fn break_prefix(pages: Seq<StagingHeaderFooterBodyPage>, start: int) -> bool {
    &&& pages.len() == 0 ==> start == 0
    &&& pages.len() > 0 ==> pages[0].before_position == 0 && pages.last().after_position == start
    &&& forall|i: int| #![trigger pages[i]] 0 <= i < pages.len() ==> pages[i].page_index == i && !pages[i].terminal
        && pages[i].before_position < pages[i].after_position <= start
    &&& forall|i: int| 0 < i < pages.len() ==> #[trigger] pages[i].before_position == pages[i - 1].after_position
}

proof fn lemma_break_pages_from(breaks: Seq<bool>, start: int, index: int, pages: Seq<StagingHeaderFooterBodyPage>)
    requires
        0 <= start <= index <= breaks.len() <= u32::MAX,
        pages.len() == break_count(breaks, index),
        break_prefix(pages, start),
    ensures
        break_pages(breaks, start, index, pages).len() == break_count(breaks, breaks.len() as int) + 1,
        canonical_body_pages(break_pages(breaks, start, index, pages), breaks.len() as u32),
    decreases breaks.len() - index,
{
    lemma_break_count_bound(breaks, index);
    if index >= breaks.len() {
        let res = break_pages(breaks, start, index, pages);
        assert(res.last() == res[pages.len() as int]);
        assert forall|i: int| 0 <= i < pages.len() implies #[trigger] res[i] == pages[i] by {}
    } else if breaks[index] {
        let page = StagingHeaderFooterBodyPage {
            page_index: pages.len() as u32,
            before_position: start as u32,
            after_position: (index + 1) as u32,
            terminal: false,
        };
        let next = pages.push(page);
        assert(break_count(breaks, index + 1) == break_count(breaks, index) + 1);
        assert(next.last() == page);
        assert forall|i: int| 0 < i < next.len() implies #[trigger] next[i].before_position == next[i
            - 1].after_position by {
            if i < pages.len() {
                assert(next[i] == pages[i] && next[i - 1] == pages[i - 1]);
            }
        }
        lemma_break_pages_from(breaks, index + 1, index + 1, next);
    } else {
        assert(break_count(breaks, index + 1) == break_count(breaks, index));
        lemma_break_pages_from(breaks, start, index + 1, pages);
    }
}

/// The body pages cut at authored breaks are canonical: one more page than
/// breaks, numbered from zero, each starting where the previous ended, from
/// the start of the body to its end, only the last terminal.
pub proof fn lemma_break_pages_canonical(breaks: Seq<bool>)
    requires
        breaks.len() <= u32::MAX,
    ensures
        break_pages(breaks, 0, 0, Seq::empty()).len() == break_count(breaks, breaks.len() as int) + 1,
        canonical_body_pages(break_pages(breaks, 0, 0, Seq::empty()), breaks.len() as u32),
{
    lemma_break_pages_from(breaks, 0, 0, Seq::empty());
}

/// Page `i` ends right after the `i + 1`-th page break.
pub open spec fn ends_after_break(breaks: Seq<bool>, page: StagingHeaderFooterBodyPage, i: int) -> bool {
    &&& 1 <= page.after_position <= breaks.len()
    &&& breaks[page.after_position - 1]
    &&& break_count(breaks, page.after_position as int) == i + 1
}

proof fn lemma_break_pages_end_at_breaks(breaks: Seq<bool>, start: int, index: int, pages: Seq<StagingHeaderFooterBodyPage>)
    requires
        0 <= start <= index <= breaks.len() <= u32::MAX,
        pages.len() == break_count(breaks, index),
        forall|i: int| 0 <= i < pages.len() ==> ends_after_break(breaks, #[trigger] pages[i], i),
    ensures
        forall|i: int|
            0 <= i < break_pages(breaks, start, index, pages).len() - 1 ==> ends_after_break(
                breaks,
                #[trigger] break_pages(breaks, start, index, pages)[i],
                i,
            ),
        break_pages(breaks, start, index, pages).len() >= 1,
        break_pages(breaks, start, index, pages).last().after_position == breaks.len(),
    decreases breaks.len() - index,
{
    if index >= breaks.len() {
        let res = break_pages(breaks, start, index, pages);
        assert forall|i: int| 0 <= i < res.len() - 1 implies ends_after_break(breaks, #[trigger] res[i], i) by {
            assert(res[i] == pages[i]);
        }
    } else if breaks[index] {
        let page = StagingHeaderFooterBodyPage {
            page_index: pages.len() as u32,
            before_position: start as u32,
            after_position: (index + 1) as u32,
            terminal: false,
        };
        let next = pages.push(page);
        assert(break_count(breaks, index + 1) == break_count(breaks, index) + 1);
        assert forall|i: int| 0 <= i < next.len() implies ends_after_break(breaks, #[trigger] next[i], i) by {
            if i < pages.len() {
                assert(next[i] == pages[i]);
            }
        }
        lemma_break_pages_end_at_breaks(breaks, index + 1, index + 1, next);
    } else {
        assert(break_count(breaks, index + 1) == break_count(breaks, index));
        lemma_break_pages_end_at_breaks(breaks, start, index + 1, pages);
    }
}

/// The body pages cut at authored breaks end at the breaks in turn: every
/// page but the last ends right after the page break of its own number
/// (counting from one), and the last page ends with the body; a trailing
/// break so leaves a last page that is empty.
pub proof fn lemma_break_pages_end_after_breaks(breaks: Seq<bool>)
    requires
        breaks.len() <= u32::MAX,
    ensures
        forall|i: int|
            0 <= i < break_pages(breaks, 0, 0, Seq::empty()).len() - 1 ==> ends_after_break(
                breaks,
                #[trigger] break_pages(breaks, 0, 0, Seq::empty())[i],
                i,
            ),
        break_pages(breaks, 0, 0, Seq::empty()).last().after_position == breaks.len(),
{
    lemma_break_pages_end_at_breaks(breaks, 0, 0, Seq::empty());
}

/// Derive the canonical body pages of a document from whether each
/// top-level block is an authored page break; refused when the pages would
/// exceed `max_pages`.
pub fn derive_staging_header_footer_body_pages(page_breaks: &[bool], max_pages: u32) -> (r: Result<
    Vec<StagingHeaderFooterBodyPage>,
    StagingHeaderFooterPaginationError,
>)
    ensures
        r is Ok <==> page_breaks@.len() <= u32::MAX && break_count(page_breaks@, page_breaks@.len() as int)
            + 1 <= max_pages,
        r matches Ok(pages) ==> pages@ == break_pages(page_breaks@, 0, 0, Seq::empty()),
        r matches Err(e) ==> e == StagingHeaderFooterPaginationError::PageLimit || (e
            == StagingHeaderFooterPaginationError::ArithmeticOverflow && page_breaks@.len() > u32::MAX),
{
    if page_breaks.len() > u32::MAX as usize {
        return Err(StagingHeaderFooterPaginationError::ArithmeticOverflow);
    }
    let terminal = page_breaks.len() as u32;
    let mut pages: Vec<StagingHeaderFooterBodyPage> = Vec::new();
    let mut start: u32 = 0;
    let mut index: usize = 0;
    while index < page_breaks.len()
        invariant
            0 <= index <= page_breaks@.len(),
            page_breaks@.len() <= u32::MAX,
            terminal == page_breaks@.len(),
            start <= index,
            pages@.len() == break_count(page_breaks@, index as int),
            pages@.len() <= max_pages,
            break_pages(page_breaks@, start as int, index as int, pages@) == break_pages(
                page_breaks@,
                0,
                0,
                Seq::empty(),
            ),
        decreases page_breaks.len() - index,
    {
        if page_breaks[index] {
            let after = (index + 1) as u32;
            if pages.len() >= max_pages as usize {
                proof {
                    lemma_break_count_monotone(page_breaks@, index as int + 1, page_breaks@.len() as int);
                }
                return Err(StagingHeaderFooterPaginationError::PageLimit);
            }
            let page_index = pages.len() as u32;
            pages.push(
                StagingHeaderFooterBodyPage {
                    page_index,
                    before_position: start,
                    after_position: after,
                    terminal: false,
                },
            );
            start = after;
        }
        index = index + 1;
    }
    if pages.len() >= max_pages as usize {
        return Err(StagingHeaderFooterPaginationError::PageLimit);
    }
    let page_index = pages.len() as u32;
    pages.push(
        StagingHeaderFooterBodyPage { page_index, before_position: start, after_position: terminal, terminal: true },
    );
    Ok(pages)
}

proof fn lemma_break_count_monotone(breaks: Seq<bool>, a: int, b: int)
    requires
        0 <= a <= b <= breaks.len(),
    ensures
        break_count(breaks, a) <= break_count(breaks, b),
    decreases b - a,
{
    if a < b {
        lemma_break_count_monotone(breaks, a, b - 1);
    }
}

/// The body pages tile the body flow `0..terminal` in order: consecutive
/// indexes, each page starting where the previous ended, only the last page
/// may be empty and it is the terminal one, reaching `terminal`.
pub open spec fn canonical_body_pages(pages: Seq<StagingHeaderFooterBodyPage>, terminal: u32) -> bool {
    &&& pages.len() > 0
    &&& pages.len() <= u32::MAX + 1
    &&& pages[0].before_position == 0
    &&& forall|i: int| 0 <= i < pages.len() ==> #[trigger] pages[i].page_index == i
    &&& forall|i: int| 0 < i < pages.len() ==> #[trigger] pages[i].before_position == pages[i - 1].after_position
    &&& forall|i: int| 0 <= i < pages.len() ==> #[trigger] pages[i].after_position >= pages[i].before_position
        && pages[i].after_position <= terminal
    &&& forall|i: int| 0 <= i < pages.len() - 1 ==> #[trigger] pages[i].after_position != pages[i].before_position
        && !pages[i].terminal
    &&& pages.last().terminal && pages.last().after_position == terminal
}

/// Check that caller-supplied body pages are the canonical tiling.
pub fn validate_body_pages(pages: &[StagingHeaderFooterBodyPage], terminal: u32) -> (r: Result<
    (),
    StagingHeaderFooterPaginationError,
>)
    ensures
        r is Ok <==> canonical_body_pages(pages@, terminal),
        pages@.len() == 0 ==> r == Err::<(), StagingHeaderFooterPaginationError>(
            StagingHeaderFooterPaginationError::EmptyBodyPages,
        ),
        r matches Err(e) ==> e == StagingHeaderFooterPaginationError::EmptyBodyPages
            || e == StagingHeaderFooterPaginationError::NonCanonicalBodyPage
            || e == StagingHeaderFooterPaginationError::ArithmeticOverflow,
        0 < pages@.len() <= u32::MAX + 1 && !canonical_body_pages(pages@, terminal) ==> r == Err::<
            (),
            StagingHeaderFooterPaginationError,
        >(StagingHeaderFooterPaginationError::NonCanonicalBodyPage),
{
    if pages.len() == 0 {
        return Err(StagingHeaderFooterPaginationError::EmptyBodyPages);
    }
    let mut cursor: u32 = 0;
    let mut index: usize = 0;
    while index < pages.len()
        invariant
            0 <= index <= pages@.len(),
            index <= u32::MAX as int + 1,
            pages@.len() > 0,
            index > 0 ==> cursor == pages@[index - 1].after_position,
            index == 0 ==> cursor == 0,
            index > 0 ==> pages@[0].before_position == 0,
            forall|i: int| 0 <= i < index ==> #[trigger] pages@[i].page_index == i,
            forall|i: int| 0 < i < index ==> #[trigger] pages@[i].before_position == pages@[i - 1].after_position,
            forall|i: int| 0 <= i < index ==> #[trigger] pages@[i].after_position >= pages@[i].before_position
                && pages@[i].after_position <= terminal,
            forall|i: int| #![trigger pages@[i]] 0 <= i < index && i < pages@.len() - 1 ==> pages@[i].after_position
                != pages@[i].before_position && !pages@[i].terminal,
            index == pages@.len() ==> pages@[index - 1].terminal && pages@[index - 1].after_position == terminal,
        decreases pages.len() - index,
    {
        if index > u32::MAX as usize {
            return Err(StagingHeaderFooterPaginationError::ArithmeticOverflow);
        }
        let page = pages[index];
        let is_last = index + 1 == pages.len();
        if page.page_index != index as u32 || page.before_position != cursor || page.after_position
            < page.before_position || page.after_position > terminal || (!is_last && page.after_position
            == page.before_position) || page.terminal != is_last || (is_last && page.after_position
            != terminal) {
            return Err(StagingHeaderFooterPaginationError::NonCanonicalBodyPage);
        }
        assert(page == pages@[index as int]);
        assert(index < pages@.len() - 1 ==> pages@[index as int].after_position
            != pages@[index as int].before_position && !pages@[index as int].terminal);
        assert(index == pages@.len() - 1 ==> pages@[index as int].terminal
            && pages@[index as int].after_position == terminal);
        cursor = page.after_position;
        index = index + 1;
    }
    Ok(())
}

/// Kind of a repeated page region.
#[derive(Clone, Copy, Debug, PartialEq, Eq, Structural, Hash, PartialOrd, Ord)]
pub enum StagingPageRegionKind {
    Header,
    Footer,
}

pub open spec fn region_kind_name(kind: StagingPageRegionKind) -> Seq<char> {
    match kind {
        StagingPageRegionKind::Header => "header"@,
        StagingPageRegionKind::Footer => "footer"@,
    }
}

impl StagingPageRegionKind {
    pub fn as_str(self) -> (name: &'static str)
        ensures
            name@ == region_kind_name(self),
    {
        match self {
            StagingPageRegionKind::Header => "header",
            StagingPageRegionKind::Footer => "footer",
        }
    }
}

/// A page master as pagination reads it: page size, body rectangle, optional
/// header and footer rectangles and the trim rectangle.
#[derive(Clone, Debug, PartialEq, Eq)]
pub struct StagingPageMaster {
    pub master_id: String,
    pub width: i64,
    pub height: i64,
    pub body: Rect,
    pub header: Option<Rect>,
    pub footer: Option<Rect>,
    pub trim: Rect,
}

/// One laid-out block of a repeated region, offset from the region's top.
#[derive(Clone, Copy, Debug, PartialEq, Eq, Structural)]
pub struct StagingRegionBlock {
    pub node_id: NodeId,
    pub y_offset: i64,
    pub block_extent: i64,
    pub before_position: u32,
    pub after_position: u32,
}

/// The laid-out content of one master's header or footer.
#[derive(Clone, Debug, PartialEq, Eq)]
pub struct StagingPageRegionLayout {
    pub master: usize,
    pub kind: StagingPageRegionKind,
    pub flow_id: u32,
    pub source_node_id: NodeId,
    pub terminal: u32,
    pub total_extent: i64,
    pub blocks: Vec<StagingRegionBlock>,
}

/// The header/footer layout: masters, their region layouts, the receipt
/// fingerprints and the end of the body flow.
#[derive(Clone, Debug, PartialEq, Eq)]
pub struct StagingHeaderFooterLayout {
    pub masters: Vec<StagingPageMaster>,
    pub regions: Vec<StagingPageRegionLayout>,
    pub profile_receipt_sha256: [u8; 32],
    pub flow_registry_sha256: [u8; 32],
    pub body_terminal: u32,
}

/// Boxes and margins of a master: media and crop are the page, trim is the
/// trim rectangle in PDF coordinates; margins run from trim to body.
pub open spec fn boxes_and_margins(master: StagingPageMaster) -> Result<
    (StagingSelectedPageBoxes, StagingPageMargins),
    StagingHeaderFooterPaginationError,
> {
    let trim = master.trim;
    let body = master.body;
    let trim_right = trim.x + trim.width;
    let trim_bottom = trim.y + trim.height;
    let body_right = body.x + body.width;
    let body_bottom = body.y + body.height;
    if trim_right > i64::MAX || trim_bottom > i64::MAX || body_right > i64::MAX || body_bottom
        > i64::MAX || trim_right < i64::MIN || trim_bottom < i64::MIN || body_right < i64::MIN
        || body_bottom < i64::MIN {
        Err(StagingHeaderFooterPaginationError::Geometry)
    } else if trim.x < 0 || trim.y < 0 || trim_right > master.width || trim_bottom > master.height
        || body.x < trim.x || body.y < trim.y || body_right > trim_right || body_bottom > trim_bottom {
        Err(StagingHeaderFooterPaginationError::Geometry)
    } else if !(i64::MIN <= master.height - trim_bottom <= i64::MAX) || !(i64::MIN <= master.height
        - trim.y <= i64::MAX) || !(i64::MIN <= trim_right - body_right <= i64::MAX) || !(i64::MIN
        <= trim_bottom - body_bottom <= i64::MAX) {
        Err(StagingHeaderFooterPaginationError::Geometry)
    } else {
        let media = StagingPdfPageBox { x_min: 0, y_min: 0, x_max: master.width, y_max: master.height };
        Ok(
            (
                StagingSelectedPageBoxes {
                    media_box: media,
                    crop_box: media,
                    trim_box: StagingPdfPageBox {
                        x_min: trim.x,
                        y_min: (master.height - trim_bottom) as i64,
                        x_max: trim_right as i64,
                        y_max: (master.height - trim.y) as i64,
                    },
                },
                StagingPageMargins {
                    top: (body.y - trim.y) as i64,
                    right: (trim_right - body_right) as i64,
                    bottom: (trim_bottom - body_bottom) as i64,
                    left: (body.x - trim.x) as i64,
                },
            ),
        )
    }
}

fn derive_boxes_and_margins(master: &StagingPageMaster) -> (r: Result<
    (StagingSelectedPageBoxes, StagingPageMargins),
    StagingHeaderFooterPaginationError,
>)
    ensures
        r == boxes_and_margins(*master),
{
    let trim = master.trim;
    let body = master.body;
    let trim_right = match trim.x.checked_add(trim.width) {
        Some(v) => v,
        None => return Err(StagingHeaderFooterPaginationError::Geometry),
    };
    let trim_bottom = match trim.y.checked_add(trim.height) {
        Some(v) => v,
        None => return Err(StagingHeaderFooterPaginationError::Geometry),
    };
    let body_right = match body.x.checked_add(body.width) {
        Some(v) => v,
        None => return Err(StagingHeaderFooterPaginationError::Geometry),
    };
    let body_bottom = match body.y.checked_add(body.height) {
        Some(v) => v,
        None => return Err(StagingHeaderFooterPaginationError::Geometry),
    };
    if trim.x < 0 || trim.y < 0 || trim_right > master.width || trim_bottom > master.height || body.x
        < trim.x || body.y < trim.y || body_right > trim_right || body_bottom > trim_bottom {
        return Err(StagingHeaderFooterPaginationError::Geometry);
    }
    let y_min = match master.height.checked_sub(trim_bottom) {
        Some(v) => v,
        None => return Err(StagingHeaderFooterPaginationError::Geometry),
    };
    let y_max = match master.height.checked_sub(trim.y) {
        Some(v) => v,
        None => return Err(StagingHeaderFooterPaginationError::Geometry),
    };
    let right = match trim_right.checked_sub(body_right) {
        Some(v) => v,
        None => return Err(StagingHeaderFooterPaginationError::Geometry),
    };
    let bottom = match trim_bottom.checked_sub(body_bottom) {
        Some(v) => v,
        None => return Err(StagingHeaderFooterPaginationError::Geometry),
    };
    let margins = StagingPageMargins { top: body.y - trim.y, right, bottom, left: body.x - trim.x };
    let media = StagingPdfPageBox { x_min: 0, y_min: 0, x_max: master.width, y_max: master.height };
    let trim_box = StagingPdfPageBox { x_min: trim.x, y_min, x_max: trim_right, y_max };
    Ok((StagingSelectedPageBoxes { media_box: media, crop_box: media, trim_box }, margins))
}

/// Region content copied onto a page.
#[derive(Clone, Debug, PartialEq, Eq)]
pub struct StagingRepeatedRegionFragment {
    pub page_index: u32,
    pub master_id: String,
    pub kind: StagingPageRegionKind,
    pub source_flow_id: u32,
    pub source_node_id: NodeId,
    pub block_node_id: NodeId,
    pub repetition_index: u32,
    pub before_position: u32,
    pub after_position: u32,
    pub bounds: Rect,
}

impl StagingRepeatedRegionFragment {
    pub fn page_index(&self) -> (v: u32)
        ensures
            v == self.page_index,
    {
        self.page_index
    }

    pub fn master_id(&self) -> (v: &str)
        ensures
            v@ == self.master_id@,
    {
        self.master_id.as_str()
    }

    pub fn kind(&self) -> (v: StagingPageRegionKind)
        ensures
            v == self.kind,
    {
        self.kind
    }

    pub fn source_flow_id(&self) -> (v: u32)
        ensures
            v == self.source_flow_id,
    {
        self.source_flow_id
    }

    pub fn source_node_id(&self) -> (v: NodeId)
        ensures
            v == self.source_node_id,
    {
        self.source_node_id
    }

    pub fn block_node_id(&self) -> (v: NodeId)
        ensures
            v == self.block_node_id,
    {
        self.block_node_id
    }

    pub fn repetition_index(&self) -> (v: u32)
        ensures
            v == self.repetition_index,
    {
        self.repetition_index
    }

    pub fn before_position(&self) -> (v: u32)
        ensures
            v == self.before_position,
    {
        self.before_position
    }

    pub fn after_position(&self) -> (v: u32)
        ensures
            v == self.after_position,
    {
        self.after_position
    }

    pub fn bounds(&self) -> (v: Rect)
        ensures
            v == self.bounds,
    {
        self.bounds
    }
}


/// One selected page: its master, boxes, margins, frames (header, body,
/// footer) and repeated region content.
#[derive(Clone, Debug, PartialEq, Eq)]
pub struct StagingSelectedAdvancedPage {
    pub page_index: u32,
    pub master_id: String,
    pub boxes: StagingSelectedPageBoxes,
    pub margins: StagingPageMargins,
    pub frames: Vec<StagingSelectedAdvancedFrame>,
    pub region_fragments: Vec<StagingRepeatedRegionFragment>,
}

impl StagingSelectedAdvancedPage {
    pub fn page_index(&self) -> (v: u32)
        ensures
            v == self.page_index,
    {
        self.page_index
    }

    pub fn master_id(&self) -> (v: &str)
        ensures
            v@ == self.master_id@,
    {
        self.master_id.as_str()
    }

    pub fn boxes(&self) -> (v: StagingSelectedPageBoxes)
        ensures
            v == self.boxes,
    {
        self.boxes
    }

    pub fn margins(&self) -> (v: StagingPageMargins)
        ensures
            v == self.margins,
    {
        self.margins
    }

    pub fn frames(&self) -> (v: &[StagingSelectedAdvancedFrame])
        ensures
            v@ == self.frames@,
    {
        self.frames.as_slice()
    }

    pub fn region_fragments(&self) -> (v: &[StagingRepeatedRegionFragment])
        ensures
            v@ == self.region_fragments@,
    {
        self.region_fragments.as_slice()
    }
}


#[verifier::opaque]
pub open spec fn frame_head(f: StagingSelectedAdvancedFrame) -> Seq<char> {
    "{\"after_position\":"@ + encoded_position(f.after_position) + ",\"before_position\":"@
        + encoded_position(f.before_position) + ",\"column_index\":"@ + encoded_optional(f.column_index)
        + ",\"frame_flow_id\":"@ + decimal(f.frame_flow_id as nat) + ",\"kind\":"@ + json_string(
        frame_kind_name(f.kind),
    )
}

#[verifier::opaque]
pub open spec fn frame_tail(f: StagingSelectedAdvancedFrame) -> Seq<char> {
    ",\"rect\":"@ + encoded_rect(f.rect) + ",\"repetition_index\":"@ + encoded_optional(f.repetition_index)
        + ",\"source_flow_id\":"@ + decimal(f.source_flow_id as nat) + ",\"terminal\":"@ + encoded_bool(
        f.terminal,
    ) + "}"@
}

/// Canonical JSON of one selected frame.
pub open spec fn encoded_frame(f: StagingSelectedAdvancedFrame) -> Seq<char> {
    frame_head(f) + frame_tail(f)
}

#[verifier::opaque]
pub open spec fn encoded_fragment(f: StagingRepeatedRegionFragment) -> Seq<char> {
    "{\"after_position\":"@ + decimal(f.after_position as nat) + ",\"before_position\":"@ + decimal(
        f.before_position as nat,
    ) + ",\"block_node_id\":"@ + decimal(f.block_node_id.spec_get() as nat) + ",\"bounds\":"@
        + encoded_rect(f.bounds) + ",\"kind\":"@ + json_string(region_kind_name(f.kind))
        + ",\"repetition_index\":"@ + decimal(f.repetition_index as nat) + ",\"source_flow_id\":"@
        + decimal(f.source_flow_id as nat) + ",\"source_node_id\":"@ + decimal(
        f.source_node_id.spec_get() as nat,
    ) + "}"@
}

pub open spec fn frame_encoder() -> spec_fn(StagingSelectedAdvancedFrame) -> Seq<char> {
    |f: StagingSelectedAdvancedFrame| encoded_frame(f)
}

pub open spec fn fragment_encoder() -> spec_fn(StagingRepeatedRegionFragment) -> Seq<char> {
    |f: StagingRepeatedRegionFragment| encoded_fragment(f)
}

pub open spec fn page_encoder() -> spec_fn(StagingSelectedAdvancedPage) -> Seq<char> {
    |p: StagingSelectedAdvancedPage| encoded_page(p)
}

#[verifier::opaque]
pub open spec fn encoded_page(p: StagingSelectedAdvancedPage) -> Seq<char> {
    "{\"boxes\":"@ + encoded_boxes(p.boxes) + ",\"frames\":["@ + joined(p.frames@, frame_encoder())
        + "],\"margins\":"@ + encoded_margins(p.margins) + ",\"master_id\":"@ + json_string(p.master_id@)
        + ",\"page_index\":"@ + decimal(p.page_index as nat) + ",\"region_fragments\":["@ + joined(
        p.region_fragments@,
        fragment_encoder(),
    ) + "]}"@
}

/// Canonical JSON of a header/footer selected layout.
pub open spec fn encoded_selected_layout(
    profile_receipt_sha256: Seq<u8>,
    flow_registry_sha256: Seq<u8>,
    pages: Seq<StagingSelectedAdvancedPage>,
) -> Seq<char> {
    "{\"algorithm\":"@ + json_string(ADVANCED_SELECTED_LAYOUT_ALGORITHM@) + ",\"flow_registry_sha256\":"@
        + quoted_hex(flow_registry_sha256) + ",\"pages\":["@ + joined(pages, page_encoder()) + "],\"profile_receipt_sha256\":"@ + quoted_hex(profile_receipt_sha256) + "}"@
}

fn push_frame_head(output: &mut String, frame: &StagingSelectedAdvancedFrame)
    ensures
        final(output)@ == old(output)@ + frame_head(*frame),
{
    output.append("{\"after_position\":");
    push_position(output, frame.after_position);
    output.append(",\"before_position\":");
    push_position(output, frame.before_position);
    output.append(",\"column_index\":");
    push_optional(output, frame.column_index);
    output.append(",\"frame_flow_id\":");
    push_u64(output, frame.frame_flow_id as u64);
    output.append(",\"kind\":");
    push_json_str(output, frame.kind.as_str());
    proof {
        reveal(frame_head);
    }
    assert(output@ =~= old(output)@ + frame_head(*frame));
}

fn push_frame_tail(output: &mut String, frame: &StagingSelectedAdvancedFrame)
    ensures
        final(output)@ == old(output)@ + frame_tail(*frame),
{
    output.append(",\"rect\":");
    push_rect(output, frame.rect);
    output.append(",\"repetition_index\":");
    push_optional(output, frame.repetition_index);
    output.append(",\"source_flow_id\":");
    push_u64(output, frame.source_flow_id as u64);
    output.append(",\"terminal\":");
    push_bool(output, frame.terminal);
    output.append("}");
    proof {
        reveal(frame_tail);
    }
    assert(output@ =~= old(output)@ + frame_tail(*frame));
}

fn push_frame(output: &mut String, frame: &StagingSelectedAdvancedFrame)
    ensures
        final(output)@ == old(output)@ + encoded_frame(*frame),
{
    push_frame_head(output, frame);
    push_frame_tail(output, frame);
    assert(output@ =~= old(output)@ + encoded_frame(*frame));
}

fn push_fragment(output: &mut String, fragment: &StagingRepeatedRegionFragment)
    ensures
        final(output)@ == old(output)@ + encoded_fragment(*fragment),
{
    output.append("{\"after_position\":");
    push_u64(output, fragment.after_position as u64);
    output.append(",\"before_position\":");
    push_u64(output, fragment.before_position as u64);
    output.append(",\"block_node_id\":");
    push_u64(output, fragment.block_node_id.get() as u64);
    output.append(",\"bounds\":");
    push_rect(output, fragment.bounds);
    output.append(",\"kind\":");
    push_json_str(output, fragment.kind.as_str());
    output.append(",\"repetition_index\":");
    push_u64(output, fragment.repetition_index as u64);
    output.append(",\"source_flow_id\":");
    push_u64(output, fragment.source_flow_id as u64);
    output.append(",\"source_node_id\":");
    push_u64(output, fragment.source_node_id.get() as u64);
    output.append("}");
    proof {
        reveal(encoded_fragment);
    }
    assert(output@ =~= old(output)@ + encoded_fragment(*fragment));
}

fn push_frames(output: &mut String, frames: &Vec<StagingSelectedAdvancedFrame>)
    ensures
        final(output)@ == old(output)@ + joined(frames@, frame_encoder()),
{
    let ghost enc = frame_encoder();
    let mut index: usize = 0;
    assert(frames@.take(0) =~= Seq::<StagingSelectedAdvancedFrame>::empty());
    while index < frames.len()
        invariant
            0 <= index <= frames@.len(),
            enc == frame_encoder(),
            output@ == old(output)@ + joined(frames@.take(index as int), enc),
        decreases frames.len() - index,
    {
        proof {
            lemma_joined_step(frames@, enc, index as int);
        }
        let ghost before = output@;
        if index > 0 {
            push_char(output, ',');
        }
        push_frame(output, &frames[index]);
        assert(enc(frames@[index as int]) == encoded_frame(frames@[index as int]));
        assert(output@ =~= old(output)@ + joined(frames@.take(index as int + 1), enc));
        index = index + 1;
    }
    assert(frames@.take(frames@.len() as int) =~= frames@);
}

fn push_fragments(output: &mut String, fragments: &Vec<StagingRepeatedRegionFragment>)
    ensures
        final(output)@ == old(output)@ + joined(fragments@, fragment_encoder()),
{
    let ghost enc = fragment_encoder();
    let mut index: usize = 0;
    assert(fragments@.take(0) =~= Seq::<StagingRepeatedRegionFragment>::empty());
    while index < fragments.len()
        invariant
            0 <= index <= fragments@.len(),
            enc == fragment_encoder(),
            output@ == old(output)@ + joined(fragments@.take(index as int), enc),
        decreases fragments.len() - index,
    {
        proof {
            lemma_joined_step(fragments@, enc, index as int);
        }
        if index > 0 {
            push_char(output, ',');
        }
        push_fragment(output, &fragments[index]);
        assert(enc(fragments@[index as int]) == encoded_fragment(fragments@[index as int]));
        assert(output@ =~= old(output)@ + joined(fragments@.take(index as int + 1), enc));
        index = index + 1;
    }
    assert(fragments@.take(fragments@.len() as int) =~= fragments@);
}

fn encode_page(output: &mut String, page: &StagingSelectedAdvancedPage)
    ensures
        final(output)@ == old(output)@ + encoded_page(*page),
{
    output.append("{\"boxes\":");
    push_boxes(output, page.boxes);
    output.append(",\"frames\":[");
    push_frames(output, &page.frames);
    output.append("],\"margins\":");
    push_margins(output, page.margins);
    output.append(",\"master_id\":");
    push_json_str(output, page.master_id.as_str());
    output.append(",\"page_index\":");
    push_u64(output, page.page_index as u64);
    output.append(",\"region_fragments\":[");
    push_fragments(output, &page.region_fragments);
    output.append("]}");
    proof {
        reveal(encoded_page);
    }
    assert(output@ =~= old(output)@ + encoded_page(*page));
}

fn encode_selected_layout(
    profile_receipt_sha256: &[u8; 32],
    flow_registry_sha256: &[u8; 32],
    pages: &[StagingSelectedAdvancedPage],
) -> (text: String)
    ensures
        text@ == encoded_selected_layout(profile_receipt_sha256@, flow_registry_sha256@, pages@),
{
    let ghost page_enc = page_encoder();
    let mut output = String::new();
    output.append("{\"algorithm\":");
    push_json_str(&mut output, ADVANCED_SELECTED_LAYOUT_ALGORITHM);
    output.append(",\"flow_registry_sha256\":");
    push_hash(&mut output, flow_registry_sha256);
    output.append(",\"pages\":[");
    let ghost head = output@;
    let mut index: usize = 0;
    assert(pages@.take(0) =~= Seq::<StagingSelectedAdvancedPage>::empty());
    while index < pages.len()
        invariant
            0 <= index <= pages@.len(),
            page_enc == page_encoder(),
            output@ == head + joined(pages@.take(index as int), page_enc),
        decreases pages.len() - index,
    {
        proof {
            lemma_joined_step(pages@, page_enc, index as int);
        }
        if index > 0 {
            push_char(&mut output, ',');
        }
        encode_page(&mut output, &pages[index]);
        assert(page_enc(pages@[index as int]) == encoded_page(pages@[index as int]));
        assert(output@ =~= head + joined(pages@.take(index as int + 1), page_enc));
        index = index + 1;
    }
    assert(pages@.take(pages@.len() as int) =~= pages@);
    output.append("],\"profile_receipt_sha256\":");
    push_hash(&mut output, profile_receipt_sha256);
    output.append("}");
    assert(output@ =~= encoded_selected_layout(profile_receipt_sha256@, flow_registry_sha256@, pages@));
    output
}

/// The receipt of a header/footer selected layout.
#[derive(Debug)]
pub struct StagingHeaderFooterSelectedLayoutReceipt {
    profile_receipt_sha256: [u8; 32],
    flow_registry_sha256: [u8; 32],
    selected_layout_sha256: [u8; 32],
    canonical_jcs: String,
}

impl StagingHeaderFooterSelectedLayoutReceipt {
    pub closed spec fn spec_profile_receipt_sha256(&self) -> Seq<u8> {
        self.profile_receipt_sha256@
    }

    pub closed spec fn spec_flow_registry_sha256(&self) -> Seq<u8> {
        self.flow_registry_sha256@
    }

    pub closed spec fn spec_selected_layout_sha256(&self) -> Seq<u8> {
        self.selected_layout_sha256@
    }

    pub closed spec fn spec_canonical_jcs(&self) -> Seq<char> {
        self.canonical_jcs@
    }

    pub fn profile_receipt_sha256(&self) -> (v: [u8; 32])
        ensures
            v@ == self.spec_profile_receipt_sha256(),
    {
        self.profile_receipt_sha256
    }

    pub fn flow_registry_sha256(&self) -> (v: [u8; 32])
        ensures
            v@ == self.spec_flow_registry_sha256(),
    {
        self.flow_registry_sha256
    }

    pub fn selected_layout_sha256(&self) -> (v: [u8; 32])
        ensures
            v@ == self.spec_selected_layout_sha256(),
    {
        self.selected_layout_sha256
    }

    pub fn canonical_jcs(&self) -> (v: &str)
        ensures
            v@ == self.spec_canonical_jcs(),
    {
        self.canonical_jcs.as_str()
    }
}

/// Selected pages and their receipt.
#[derive(Debug)]
pub struct StagingHeaderFooterSelectedLayout {
    pages: Vec<StagingSelectedAdvancedPage>,
    receipt: StagingHeaderFooterSelectedLayoutReceipt,
}

impl StagingHeaderFooterSelectedLayout {
    pub closed spec fn spec_pages(&self) -> Seq<StagingSelectedAdvancedPage> {
        self.pages@
    }

    pub closed spec fn spec_receipt(&self) -> StagingHeaderFooterSelectedLayoutReceipt {
        self.receipt
    }

    /// The receipt is the canonical JSON of the pages and its fingerprint.
    pub open spec fn receipt_matches(&self) -> bool {
        let r = self.spec_receipt();
        &&& self.spec_pages().len() > 0
        &&& r.spec_canonical_jcs() == encoded_selected_layout(
            r.spec_profile_receipt_sha256(),
            r.spec_flow_registry_sha256(),
            self.spec_pages(),
        )
        &&& r.spec_selected_layout_sha256() == text_fingerprint(r.spec_canonical_jcs())
    }

    /// A selected layout from pages and a receipt received from elsewhere,
    /// to be checked with `verify_receipt`.
    pub fn from_parts(pages: Vec<StagingSelectedAdvancedPage>, receipt: StagingHeaderFooterSelectedLayoutReceipt) -> (s: Self)
        ensures
            s.spec_pages() == pages@,
            s.spec_receipt() == receipt,
    {
        StagingHeaderFooterSelectedLayout { pages, receipt }
    }

    /// The pages and the receipt.
    pub fn into_parts(self) -> (parts: (Vec<StagingSelectedAdvancedPage>, StagingHeaderFooterSelectedLayoutReceipt))
        ensures
            parts.0@ == self.spec_pages(),
            parts.1 == self.spec_receipt(),
    {
        (self.pages, self.receipt)
    }

    pub fn pages(&self) -> (v: &[StagingSelectedAdvancedPage])
        ensures
            v@ == self.spec_pages(),
    {
        self.pages.as_slice()
    }

    pub fn receipt(&self) -> (v: &StagingHeaderFooterSelectedLayoutReceipt)
        ensures
            *v == self.spec_receipt(),
    {
        &self.receipt
    }

    /// Recompute the canonical JSON and its fingerprint from the pages.
    pub fn verify_receipt(&self) -> (r: Result<(), StagingHeaderFooterPaginationError>)
        ensures
            r is Ok <==> self.receipt_matches(),
            r matches Err(e) ==> e == StagingHeaderFooterPaginationError::SelectedReceiptMismatch,
    {
        let canonical = encode_selected_layout(
            &self.receipt.profile_receipt_sha256,
            &self.receipt.flow_registry_sha256,
            self.pages.as_slice(),
        );
        let digest = fingerprint_text(&canonical);
        if self.pages.len() == 0 || canonical != self.receipt.canonical_jcs || !fingerprint_eq(
            &digest,
            &self.receipt.selected_layout_sha256,
        ) {
            return Err(StagingHeaderFooterPaginationError::SelectedReceiptMismatch);
        }
        Ok(())
    }
}


/// Index of the region layout of master `master` and kind `kind`, at or
/// after `from`.
pub open spec fn region_index(regions: Seq<StagingPageRegionLayout>, master: usize, kind: StagingPageRegionKind, from: int) -> Option<
    int,
>
    decreases regions.len() - from,
{
    if from < 0 || from >= regions.len() {
        None
    } else if regions[from].master == master && regions[from].kind == kind {
        Some(from)
    } else {
        region_index(regions, master, kind, from + 1)
    }
}

fn find_region(layout: &StagingHeaderFooterLayout, master: usize, kind: StagingPageRegionKind) -> (r: Option<
    usize,
>)
    ensures
        r matches Some(i) ==> i < layout.regions@.len() && region_index(layout.regions@, master, kind, 0)
            == Some(i as int) && layout.regions@[i as int].master == master && layout.regions@[i as int].kind
            == kind,
        r is None ==> region_index(layout.regions@, master, kind, 0) is None,
{
    let mut index: usize = 0;
    while index < layout.regions.len()
        invariant
            0 <= index <= layout.regions@.len(),
            region_index(layout.regions@, master, kind, 0) == region_index(
                layout.regions@,
                master,
                kind,
                index as int,
            ),
        decreases layout.regions.len() - index,
    {
        if layout.regions[index].master == master && layout.regions[index].kind == kind {
            return Some(index);
        }
        index = index + 1;
    }
    None
}

/// The region layout chosen for a master's rectangle: none when both are
/// absent, the layout when both are present and its content fits, an
/// oversize refusal naming the master when it does not, and a mismatch
/// when only one of the two is present.
pub open spec fn region_choice(
    layout: StagingHeaderFooterLayout,
    master: usize,
    kind: StagingPageRegionKind,
    rect: Option<Rect>,
) -> Result<Option<usize>, StagingHeaderFooterPaginationError> {
    match (rect, region_index(layout.regions@, master, kind, 0)) {
        (None, None) => Ok(None),
        (Some(frame), Some(i)) => if layout.regions@[i].total_extent > frame.height {
            Err(
                StagingHeaderFooterPaginationError::RegionOversize {
                    master_id: layout.masters@[master as int].master_id,
                    kind,
                },
            )
        } else {
            Ok(Some(i as usize))
        },
        _ => Err(StagingHeaderFooterPaginationError::MasterReceiptMismatch),
    }
}

/// A master's rectangle for a region and the region's layout must both be
/// present or both absent; present content must fit the rectangle.
fn selected_region(
    layout: &StagingHeaderFooterLayout,
    master: usize,
    kind: StagingPageRegionKind,
    rect: Option<Rect>,
) -> (r: Result<Option<usize>, StagingHeaderFooterPaginationError>)
    requires
        master < layout.masters@.len(),
    ensures
        r matches Ok(Some(i)) ==> i < layout.regions@.len() && rect is Some
            && layout.regions@[i as int].master == master && layout.regions@[i as int].kind == kind
            && layout.regions@[i as int].total_extent <= rect->0.height && region_index(
            layout.regions@,
            master,
            kind,
            0,
        ) == Some(i as int),
        r matches Ok(None) ==> rect is None,
        match (rect, region_index(layout.regions@, master, kind, 0)) {
            (None, None) => r == Ok::<Option<usize>, StagingHeaderFooterPaginationError>(None),
            (Some(frame), Some(i)) => if layout.regions@[i].total_extent > frame.height {
                r matches Err(StagingHeaderFooterPaginationError::RegionOversize { master_id, kind: k }) && master_id@
                    == layout.masters@[master as int].master_id@ && k == kind
            } else {
                r == Ok::<Option<usize>, StagingHeaderFooterPaginationError>(Some(i as usize))
            },
            _ => r == Err::<Option<usize>, StagingHeaderFooterPaginationError>(
                StagingHeaderFooterPaginationError::MasterReceiptMismatch,
            ),
        },
        r == region_choice(*layout, master, kind, rect),
{
    let found = find_region(layout, master, kind);
    match (rect, found) {
        (None, None) => Ok(None),
        (Some(frame), Some(i)) => {
            if layout.regions[i].total_extent > frame.height {
                return Err(
                    StagingHeaderFooterPaginationError::RegionOversize {
                        master_id: layout.masters[master].master_id.clone(),
                        kind,
                    },
                );
            }
            Ok(Some(i))
        },
        _ => Err(StagingHeaderFooterPaginationError::MasterReceiptMismatch),
    }
}

/// Charge selected records against the inclusive fragment limit.
fn charge(count: &mut u64, amount: u64, limits: &PaginationLimits) -> (r: Result<
    (),
    StagingHeaderFooterPaginationError,
>)
    ensures
        r is Ok <==> old(count) + amount <= limits.max_fragments,
        r is Ok ==> *final(count) == old(count) + amount,
        r is Err ==> *final(count) == *old(count) && r == Err::<(), StagingHeaderFooterPaginationError>(
            StagingHeaderFooterPaginationError::FragmentLimit,
        ),
{
    let next = match count.checked_add(amount) {
        Some(v) => v,
        None => return Err(StagingHeaderFooterPaginationError::FragmentLimit),
    };
    if next > limits.max_fragments {
        return Err(StagingHeaderFooterPaginationError::FragmentLimit);
    }
    *count = next;
    Ok(())
}

/// The frame of a repeated region: its whole flow, terminal.
pub open spec fn region_frame_of(
    kind: StagingAdvancedPageFrameKind,
    rect: Rect,
    region: StagingPageRegionLayout,
    repetition_index: u32,
) -> StagingSelectedAdvancedFrame {
    StagingSelectedAdvancedFrame {
        kind,
        column_index: None,
        frame_flow_id: region.flow_id,
        source_flow_id: region.flow_id,
        rect,
        before_position: StagingAdvancedFlowPosition { flow_id: region.flow_id, ordinal: 0 },
        after_position: StagingAdvancedFlowPosition { flow_id: region.flow_id, ordinal: region.terminal },
        terminal: true,
        repetition_index: Some(repetition_index),
    }
}

/// The fragment of one region block repeated in a frame: the block's node
/// and flow range, at its offset below the frame's top, the frame's width.
pub open spec fn region_fragment_of(
    f: StagingRepeatedRegionFragment,
    page_index: u32,
    master_id: Seq<char>,
    frame: Rect,
    region: StagingPageRegionLayout,
    repetition_index: u32,
    block: StagingRegionBlock,
) -> bool {
    &&& f.page_index == page_index
    &&& f.master_id@ == master_id
    &&& f.kind == region.kind
    &&& f.source_flow_id == region.flow_id
    &&& f.source_node_id == region.source_node_id
    &&& f.block_node_id == block.node_id
    &&& f.repetition_index == repetition_index
    &&& f.before_position == block.before_position
    &&& f.after_position == block.after_position
    &&& f.bounds == (Rect { x: frame.x, y: (frame.y + block.y_offset) as i64, width: frame.width, height: block.block_extent })
}

fn region_frame(
    kind: StagingAdvancedPageFrameKind,
    rect: Rect,
    region: &StagingPageRegionLayout,
    repetition_index: u32,
) -> (frame: StagingSelectedAdvancedFrame)
    ensures
        frame == region_frame_of(kind, rect, *region, repetition_index),
{
    StagingSelectedAdvancedFrame {
        kind,
        column_index: None,
        frame_flow_id: region.flow_id,
        source_flow_id: region.flow_id,
        rect,
        before_position: StagingAdvancedFlowPosition { flow_id: region.flow_id, ordinal: 0 },
        after_position: StagingAdvancedFlowPosition { flow_id: region.flow_id, ordinal: region.terminal },
        terminal: true,
        repetition_index: Some(repetition_index),
    }
}

/// Whether a region block's top and bottom in a frame, and the frame's
/// bottom, are representable.
pub open spec fn region_block_representable(frame: Rect, block: StagingRegionBlock) -> bool {
    &&& i64::MIN <= frame.y + block.y_offset <= i64::MAX
    &&& i64::MIN <= frame.y + block.y_offset + block.block_extent <= i64::MAX
    &&& i64::MIN <= frame.y + frame.height <= i64::MAX
}

/// Whether a region block lies within the frame's bottom.
pub open spec fn region_block_fits(frame: Rect, block: StagingRegionBlock) -> bool {
    region_block_representable(frame, block) && frame.y + block.y_offset + block.block_extent <= frame.y
        + frame.height
}

/// Why a region's blocks from `i` on cannot be copied into a frame: the
/// first block whose position is not representable (geometry) or that
/// reaches below the frame (oversize, naming the master and kind).
pub open spec fn region_blocks_refusal(
    frame: Rect,
    blocks: Seq<StagingRegionBlock>,
    master_id: String,
    kind: StagingPageRegionKind,
    i: int,
) -> Option<StagingHeaderFooterPaginationError>
    decreases blocks.len() - i,
{
    if i < 0 || i >= blocks.len() {
        None
    } else if !region_block_representable(frame, blocks[i]) {
        Some(StagingHeaderFooterPaginationError::Geometry)
    } else if !region_block_fits(frame, blocks[i]) {
        Some(StagingHeaderFooterPaginationError::RegionOversize { master_id, kind })
    } else {
        region_blocks_refusal(frame, blocks, master_id, kind, i + 1)
    }
}

/// Copy a region's blocks into the frame; a block reaching below the frame
/// is refused as oversize.
fn append_region_fragments(
    fragments: &mut Vec<StagingRepeatedRegionFragment>,
    page_index: u32,
    master_id: &String,
    frame: Rect,
    region: &StagingPageRegionLayout,
    repetition_index: u32,
) -> (r: Result<(), StagingHeaderFooterPaginationError>)
    ensures
        r is Ok ==> final(fragments)@.len() == old(fragments)@.len() + region.blocks@.len() && (forall|t: int|
            0 <= t < old(fragments)@.len() ==> #[trigger] final(fragments)@[t] == old(fragments)@[t]) && (forall|t: int|
            0 <= t < region.blocks@.len() ==> region_fragment_of(
                #[trigger] final(fragments)@[old(fragments)@.len() + t],
                page_index,
                master_id@,
                frame,
                *region,
                repetition_index,
                region.blocks@[t],
            )),
        r is Ok <==> forall|t: int| 0 <= t < region.blocks@.len() ==> region_block_fits(frame, #[trigger] region.blocks@[t]),
        r is Err ==> exists|t: int|
            0 <= t < region.blocks@.len() && !region_block_fits(frame, #[trigger] region.blocks@[t]) && (forall|u: int|
                0 <= u < t ==> region_block_fits(frame, #[trigger] region.blocks@[u])) && (if region_block_representable(
                frame,
                region.blocks@[t],
            ) {
                r matches Err(StagingHeaderFooterPaginationError::RegionOversize { master_id: m, kind: k }) && m@
                    == master_id@ && k == region.kind
            } else {
                r == Err::<(), StagingHeaderFooterPaginationError>(StagingHeaderFooterPaginationError::Geometry)
            }),
        r == match region_blocks_refusal(frame, region.blocks@, *master_id, region.kind, 0) {
            Some(e) => Err::<(), StagingHeaderFooterPaginationError>(e),
            None => Ok(()),
        },
{
    let mut index: usize = 0;
    let ghost start = fragments@.len();
    while index < region.blocks.len()
        invariant
            0 <= index <= region.blocks@.len(),
            fragments@.len() == start + index,
            start == old(fragments)@.len(),
            forall|t: int| 0 <= t < start ==> #[trigger] fragments@[t] == old(fragments)@[t],
            forall|u: int| 0 <= u < index ==> region_block_fits(frame, #[trigger] region.blocks@[u]),
            region_blocks_refusal(frame, region.blocks@, *master_id, region.kind, 0) == region_blocks_refusal(
                frame,
                region.blocks@,
                *master_id,
                region.kind,
                index as int,
            ),
            forall|t: int|
                0 <= t < index ==> region_fragment_of(
                    #[trigger] fragments@[start + t],
                    page_index,
                    master_id@,
                    frame,
                    *region,
                    repetition_index,
                    region.blocks@[t],
                ),
        decreases region.blocks.len() - index,
    {
        let block = region.blocks[index];
        let y = match frame.y.checked_add(block.y_offset) {
            Some(v) => v,
            None => return Err(StagingHeaderFooterPaginationError::Geometry),
        };
        let bounds = Rect { x: frame.x, y, width: frame.width, height: block.block_extent };
        let bottom = match y.checked_add(block.block_extent) {
            Some(v) => v,
            None => return Err(StagingHeaderFooterPaginationError::Geometry),
        };
        let frame_bottom = match frame.y.checked_add(frame.height) {
            Some(v) => v,
            None => return Err(StagingHeaderFooterPaginationError::Geometry),
        };
        if bottom > frame_bottom {
            return Err(
                StagingHeaderFooterPaginationError::RegionOversize {
                    master_id: master_id.clone(),
                    kind: region.kind,
                },
            );
        }
        fragments.push(
            StagingRepeatedRegionFragment {
                page_index,
                master_id: master_id.clone(),
                kind: region.kind,
                source_flow_id: region.flow_id,
                source_node_id: region.source_node_id,
                block_node_id: block.node_id,
                repetition_index,
                before_position: block.before_position,
                after_position: block.after_position,
                bounds,
            },
        );
        assert(region_fragment_of(
            fragments@[start + index],
            page_index,
            master_id@,
            frame,
            *region,
            repetition_index,
            region.blocks@[index as int],
        ));
        index = index + 1;
    }
    Ok(())
}

/// Take the next repetition index of a counter.
fn next_repetition(counters: &mut Vec<u32>, slot: usize) -> (r: Result<u32, StagingHeaderFooterPaginationError>)
    requires
        slot < old(counters)@.len(),
    ensures
        final(counters)@.len() == old(counters)@.len(),
        r is Ok <==> old(counters)@[slot as int] < u32::MAX,
        r matches Ok(v) ==> v == old(counters)@[slot as int] && final(counters)@ == old(counters)@.update(
            slot as int,
            (v + 1) as u32,
        ),
        r matches Err(e) ==> e == StagingHeaderFooterPaginationError::ArithmeticOverflow,
{
    let value = counters[slot];
    if value == u32::MAX {
        return Err(StagingHeaderFooterPaginationError::ArithmeticOverflow);
    }
    counters.set(slot, value + 1);
    Ok(value)
}

/// The body frame of a page: the master's body rectangle over the page's
/// body flow range.
pub open spec fn body_frame(body: Rect, page: StagingHeaderFooterBodyPage) -> StagingSelectedAdvancedFrame {
    StagingSelectedAdvancedFrame {
        kind: StagingAdvancedPageFrameKind::Body,
        column_index: Some(0),
        frame_flow_id: DOCUMENT_BODY_FLOW,
        source_flow_id: DOCUMENT_BODY_FLOW,
        rect: body,
        before_position: StagingAdvancedFlowPosition { flow_id: DOCUMENT_BODY_FLOW, ordinal: page.before_position },
        after_position: StagingAdvancedFlowPosition { flow_id: DOCUMENT_BODY_FLOW, ordinal: page.after_position },
        terminal: page.terminal,
        repetition_index: None,
    }
}

/// Selected page `page` is what the master `master` makes of body page
/// `body`: index, master, boxes and margins, then the header frame if the
/// master has one, the body frame, and the footer frame if it has one.
pub open spec fn page_selected(
    page: StagingSelectedAdvancedPage,
    body: StagingHeaderFooterBodyPage,
    master: StagingPageMaster,
) -> bool {
    let header: int = if master.header is Some {
        1
    } else {
        0
    };
    let footer: int = if master.footer is Some {
        1
    } else {
        0
    };
    &&& page.page_index == body.page_index
    &&& page.master_id@ == master.master_id@
    &&& boxes_and_margins(master) == Ok::<
        (StagingSelectedPageBoxes, StagingPageMargins),
        StagingHeaderFooterPaginationError,
    >((page.boxes, page.margins))
    &&& page.frames@.len() == 1 + header + footer
    &&& page.frames@[header] == body_frame(master.body, body)
    &&& master.header is Some ==> page.frames@[0].kind == StagingAdvancedPageFrameKind::Header
        && page.frames@[0].rect == master.header->0 && page.frames@[0].terminal
    &&& master.footer is Some ==> page.frames@[1 + header].kind == StagingAdvancedPageFrameKind::Footer
        && page.frames@[1 + header].rect == master.footer->0 && page.frames@[1 + header].terminal
}

/// How many of the pages before `upto` use master `m`.
pub open spec fn master_uses(selection: Seq<usize>, upto: int, m: int) -> nat
    decreases upto,
{
    if upto <= 0 {
        0
    } else {
        master_uses(selection, upto - 1, m) + if selection[upto - 1] == m {
            1nat
        } else {
            0nat
        }
    }
}

/// The regions of a page: each region its master has is the layout's first
/// region for that master and kind, framed in the master's rectangle for its
/// `n`-th repetition (counting from zero), and the region's blocks become the
/// page's region fragments, header first.
pub open spec fn regions_selected(
    page: StagingSelectedAdvancedPage,
    regions: Seq<StagingPageRegionLayout>,
    m: usize,
    master: StagingPageMaster,
    n: nat,
) -> bool {
    let header: int = if master.header is Some {
        1
    } else {
        0
    };
    let hi = region_index(regions, m, StagingPageRegionKind::Header, 0);
    let fi = region_index(regions, m, StagingPageRegionKind::Footer, 0);
    let hb: int = if master.header is Some && hi is Some {
        regions[hi->0].blocks@.len() as int
    } else {
        0
    };
    let fb: int = if master.footer is Some && fi is Some {
        regions[fi->0].blocks@.len() as int
    } else {
        0
    };
    &&& page.region_fragments@.len() == hb + fb
    &&& master.header is Some ==> {
        &&& hi is Some
        &&& n <= u32::MAX
        &&& page.frames@[0] == region_frame_of(
            StagingAdvancedPageFrameKind::Header,
            master.header->0,
            regions[hi->0],
            n as u32,
        )
        &&& forall|t: int|
            0 <= t < hb ==> region_fragment_of(
                #[trigger] page.region_fragments@[t],
                page.page_index,
                master.master_id@,
                master.header->0,
                regions[hi->0],
                n as u32,
                regions[hi->0].blocks@[t],
            )
    }
    &&& master.footer is Some ==> {
        &&& fi is Some
        &&& n <= u32::MAX
        &&& page.frames@[1 + header] == region_frame_of(
            StagingAdvancedPageFrameKind::Footer,
            master.footer->0,
            regions[fi->0],
            n as u32,
        )
        &&& forall|t: int|
            0 <= t < fb ==> region_fragment_of(
                #[trigger] page.region_fragments@[hb + t],
                page.page_index,
                master.master_id@,
                master.footer->0,
                regions[fi->0],
                n as u32,
                regions[fi->0].blocks@[t],
            )
    }
}

/// The repetition counters of master `m` hold its uses so far, for each
/// region it has.
pub open spec fn uses_recorded(
    counters: Seq<u32>,
    masters: Seq<StagingPageMaster>,
    selection: Seq<usize>,
    upto: int,
    m: int,
) -> bool {
    &&& counters[2 * m] == (if masters[m].header is Some {
        master_uses(selection, upto, m)
    } else {
        0
    })
    &&& counters[2 * m + 1] == (if masters[m].footer is Some {
        master_uses(selection, upto, m)
    } else {
        0
    })
}

/// How many blocks the region layout of a master and kind has, if any.
pub open spec fn region_block_count(layout: StagingHeaderFooterLayout, m: usize, kind: StagingPageRegionKind) -> int {
    match region_index(layout.regions@, m, kind, 0) {
        Some(i) => layout.regions@[i].blocks@.len() as int,
        None => 0,
    }
}

/// The selected records a page of master `m` takes: the page, a frame and
/// a repeated region per header or footer, and a fragment per region block.
pub open spec fn page_record_count(layout: StagingHeaderFooterLayout, m: usize) -> int {
    let regions: int = (if region_index(layout.regions@, m, StagingPageRegionKind::Header, 0) is Some {
        1int
    } else {
        0int
    }) + (if region_index(layout.regions@, m, StagingPageRegionKind::Footer, 0) is Some {
        1int
    } else {
        0int
    });
    1 + regions + regions + region_block_count(layout, m, StagingPageRegionKind::Header) + region_block_count(
        layout,
        m,
        StagingPageRegionKind::Footer,
    )
}

/// The outcome of selecting a page of master `m` after `records` selected
/// records: its boxes and margins, its header and footer choice, the count
/// arithmetic, the fragment limit, then its header and footer blocks, in
/// that order; on success the records the page takes.
pub open spec fn master_page_outcome(
    layout: StagingHeaderFooterLayout,
    m: usize,
    records: int,
    limits: PaginationLimits,
) -> Result<int, StagingHeaderFooterPaginationError> {
    let master = layout.masters@[m as int];
    let hb = region_block_count(layout, m, StagingPageRegionKind::Header);
    let fb = region_block_count(layout, m, StagingPageRegionKind::Footer);
    match boxes_and_margins(master) {
        Err(e) => Err(e),
        Ok(_) => match region_choice(layout, m, StagingPageRegionKind::Header, master.header) {
            Err(e) => Err(e),
            Ok(h) => match region_choice(layout, m, StagingPageRegionKind::Footer, master.footer) {
                Err(e) => Err(e),
                Ok(f) => if hb + fb > u64::MAX || page_record_count(layout, m) > u64::MAX {
                    Err(StagingHeaderFooterPaginationError::ArithmeticOverflow)
                } else if records + page_record_count(layout, m) > limits.max_fragments {
                    Err(StagingHeaderFooterPaginationError::FragmentLimit)
                } else if h is Some && region_blocks_refusal(
                    master.header->0,
                    layout.regions@[h->0 as int].blocks@,
                    master.master_id,
                    layout.regions@[h->0 as int].kind,
                    0,
                ) is Some {
                    Err(
                        region_blocks_refusal(
                            master.header->0,
                            layout.regions@[h->0 as int].blocks@,
                            master.master_id,
                            layout.regions@[h->0 as int].kind,
                            0,
                        )->0,
                    )
                } else if f is Some && region_blocks_refusal(
                    master.footer->0,
                    layout.regions@[f->0 as int].blocks@,
                    master.master_id,
                    layout.regions@[f->0 as int].kind,
                    0,
                ) is Some {
                    Err(
                        region_blocks_refusal(
                            master.footer->0,
                            layout.regions@[f->0 as int].blocks@,
                            master.master_id,
                            layout.regions@[f->0 as int].kind,
                            0,
                        )->0,
                    )
                } else {
                    Ok(page_record_count(layout, m))
                },
            },
        },
    }
}

/// The first refusal selecting pages `i..` after `records` selected
/// records: a page without a valid master selection, or its master's page
/// refusal.
pub open spec fn pages_refusal(
    layout: StagingHeaderFooterLayout,
    body_pages: Seq<StagingHeaderFooterBodyPage>,
    selection: Seq<usize>,
    limits: PaginationLimits,
    i: int,
    records: int,
) -> Option<StagingHeaderFooterPaginationError>
    decreases body_pages.len() - i,
{
    if i < 0 || i >= body_pages.len() {
        None
    } else if i >= selection.len() || selection[i] >= layout.masters@.len() {
        Some(StagingHeaderFooterPaginationError::MasterSelection)
    } else {
        match master_page_outcome(layout, selection[i], records, limits) {
            Err(e) => Some(e),
            Ok(taken) => pages_refusal(layout, body_pages, selection, limits, i + 1, records + taken),
        }
    }
}

proof fn lemma_master_uses_bound(selection: Seq<usize>, upto: int, m: int)
    ensures
        upto >= 0 ==> master_uses(selection, upto, m) <= upto,
    decreases upto,
{
    if upto > 0 {
        lemma_master_uses_bound(selection, upto - 1, m);
    }
}

/// Select one page per canonical body page, with the master the page-master
/// rules chose for it (`selection[i]` indexes `layout.masters`), and seal
/// the selected layout in its receipt.
pub fn paginate_staging_header_footer(
    layout: &StagingHeaderFooterLayout,
    body_pages: &[StagingHeaderFooterBodyPage],
    selection: &[usize],
    limits: &PaginationLimits,
) -> (r: Result<StagingHeaderFooterSelectedLayout, StagingHeaderFooterPaginationError>)
    ensures
        !canonical_body_pages(body_pages@, layout.body_terminal) ==> r is Err,
        body_pages@.len() == 0 ==> r == Err::<StagingHeaderFooterSelectedLayout, StagingHeaderFooterPaginationError>(
            StagingHeaderFooterPaginationError::EmptyBodyPages,
        ),
        0 < body_pages@.len() <= u32::MAX + 1 && !canonical_body_pages(body_pages@, layout.body_terminal) ==> r
            == Err::<StagingHeaderFooterSelectedLayout, StagingHeaderFooterPaginationError>(
            StagingHeaderFooterPaginationError::NonCanonicalBodyPage,
        ),
        canonical_body_pages(body_pages@, layout.body_terminal) && body_pages@.len() > limits.max_pages
            ==> r == Err::<StagingHeaderFooterSelectedLayout, StagingHeaderFooterPaginationError>(
            StagingHeaderFooterPaginationError::PageLimit,
        ),
        canonical_body_pages(body_pages@, layout.body_terminal) && body_pages@.len() <= limits.max_pages ==> match pages_refusal(
            *layout,
            body_pages@,
            selection@,
            *limits,
            0,
            0,
        ) {
            Some(e) => r == Err::<StagingHeaderFooterSelectedLayout, StagingHeaderFooterPaginationError>(e),
            None => r is Ok,
        },
        r matches Ok(selected) ==> {
            &&& canonical_body_pages(body_pages@, layout.body_terminal)
            &&& body_pages@.len() <= limits.max_pages
            &&& selected.receipt_matches()
            &&& selected.spec_receipt().spec_profile_receipt_sha256() == layout.profile_receipt_sha256@
            &&& selected.spec_receipt().spec_flow_registry_sha256() == layout.flow_registry_sha256@
            &&& selected.spec_pages().len() == body_pages@.len()
            &&& forall|i: int| 0 <= i < body_pages@.len() ==> #[trigger] selection@[i] < layout.masters@.len()
                && page_selected(selected.spec_pages()[i], body_pages@[i], layout.masters@[selection@[i] as int])
            &&& forall|i: int| 0 <= i < body_pages@.len() ==> regions_selected(
                #[trigger] selected.spec_pages()[i],
                layout.regions@,
                selection@[i],
                layout.masters@[selection@[i] as int],
                master_uses(selection@, i, selection@[i] as int),
            )
        },
{
    match validate_body_pages(body_pages, layout.body_terminal) {
        Ok(()) => {},
        Err(e) => return Err(e),
    }
    if body_pages.len() > limits.max_pages as usize {
        return Err(StagingHeaderFooterPaginationError::PageLimit);
    }
    let mut counters: Vec<u32> = Vec::new();
    let mut fill: usize = 0;
    while fill < layout.masters.len()
        invariant
            0 <= fill <= layout.masters@.len(),
            counters@.len() == 2 * fill,
            forall|t: int| 0 <= t < counters@.len() ==> counters@[t] == 0,
        decreases layout.masters.len() - fill,
    {
        counters.push(0);
        counters.push(0);
        fill = fill + 1;
    }
    let mut pages: Vec<StagingSelectedAdvancedPage> = Vec::new();
    let mut selected_records: u64 = 0;
    let mut index: usize = 0;
    while index < body_pages.len()
        invariant
            0 <= index <= body_pages@.len(),
            pages_refusal(*layout, body_pages@, selection@, *limits, 0, 0) == pages_refusal(
                *layout,
                body_pages@,
                selection@,
                *limits,
                index as int,
                selected_records as int,
            ),
            counters@.len() == 2 * layout.masters@.len(),
            canonical_body_pages(body_pages@, layout.body_terminal),
            body_pages@.len() <= limits.max_pages,
            pages@.len() == index,
            forall|i: int| 0 <= i < index ==> #[trigger] selection@[i] < layout.masters@.len()
                && page_selected(pages@[i], body_pages@[i], layout.masters@[selection@[i] as int]),
            index == 0 || index <= selection@.len(),
            forall|mm: int| 0 <= mm < layout.masters@.len() ==> #[trigger] uses_recorded(
                counters@,
                layout.masters@,
                selection@,
                index as int,
                mm,
            ),
            forall|i: int| 0 <= i < index ==> regions_selected(
                #[trigger] pages@[i],
                layout.regions@,
                selection@[i],
                layout.masters@[selection@[i] as int],
                master_uses(selection@, i, selection@[i] as int),
            ),
        decreases body_pages.len() - index,
    {
        let body_page = body_pages[index];
        if index >= selection.len() || selection[index] >= layout.masters.len() {
            return Err(StagingHeaderFooterPaginationError::MasterSelection);
        }
        let m = selection[index];
        proof {
            lemma_master_uses_bound(selection@, index as int, m as int);
        }
        let slots = counters.len();
        assert(2 * m + 1 < slots);
        let ghost counters_before = counters@;
        assert(uses_recorded(counters@, layout.masters@, selection@, index as int, m as int));
        let master = &layout.masters[m];
        let (boxes, margins) = match derive_boxes_and_margins(master) {
            Ok(v) => v,
            Err(e) => return Err(e),
        };
        let header_region = match selected_region(layout, m, StagingPageRegionKind::Header, master.header) {
            Ok(v) => v,
            Err(e) => return Err(e),
        };
        let footer_region = match selected_region(layout, m, StagingPageRegionKind::Footer, master.footer) {
            Ok(v) => v,
            Err(e) => return Err(e),
        };
        let header_blocks: usize = match header_region {
            Some(i) => layout.regions[i].blocks.len(),
            None => 0,
        };
        let footer_blocks: usize = match footer_region {
            Some(i) => layout.regions[i].blocks.len(),
            None => 0,
        };
        let regions: u64 = (if header_region.is_some() { 1u64 } else { 0u64 }) + (if footer_region.is_some() {
            1u64
        } else {
            0u64
        });
        let fragment_count = match (header_blocks as u64).checked_add(footer_blocks as u64) {
            Some(v) => v,
            None => return Err(StagingHeaderFooterPaginationError::ArithmeticOverflow),
        };
        let page_records = match (1 + regions + regions).checked_add(fragment_count) {
            Some(v) => v,
            None => return Err(StagingHeaderFooterPaginationError::ArithmeticOverflow),
        };
        match charge(&mut selected_records, page_records, limits) {
            Ok(()) => {},
            Err(e) => return Err(e),
        }
        let mut frames: Vec<StagingSelectedAdvancedFrame> = Vec::new();
        let mut fragments: Vec<StagingRepeatedRegionFragment> = Vec::new();
        match (master.header, header_region) {
            (Some(rect), Some(r)) => {
                let repetition = match next_repetition(&mut counters, 2 * m) {
                    Ok(v) => v,
                    Err(e) => return Err(e),
                };
                frames.push(region_frame(StagingAdvancedPageFrameKind::Header, rect, &layout.regions[r], repetition));
                match append_region_fragments(
                    &mut fragments,
                    body_page.page_index,
                    &master.master_id,
                    rect,
                    &layout.regions[r],
                    repetition,
                ) {
                    Ok(()) => {},
                    Err(e) => return Err(e),
                }
            },
            (None, None) => {},
            _ => return Err(StagingHeaderFooterPaginationError::MasterReceiptMismatch),
        }
        let ghost header_fragments = fragments@;
        frames.push(
            StagingSelectedAdvancedFrame {
                kind: StagingAdvancedPageFrameKind::Body,
                column_index: Some(0),
                frame_flow_id: DOCUMENT_BODY_FLOW,
                source_flow_id: DOCUMENT_BODY_FLOW,
                rect: master.body,
                before_position: StagingAdvancedFlowPosition {
                    flow_id: DOCUMENT_BODY_FLOW,
                    ordinal: body_page.before_position,
                },
                after_position: StagingAdvancedFlowPosition {
                    flow_id: DOCUMENT_BODY_FLOW,
                    ordinal: body_page.after_position,
                },
                terminal: body_page.terminal,
                repetition_index: None,
            },
        );
        match (master.footer, footer_region) {
            (Some(rect), Some(r)) => {
                let repetition = match next_repetition(&mut counters, 2 * m + 1) {
                    Ok(v) => v,
                    Err(e) => return Err(e),
                };
                frames.push(region_frame(StagingAdvancedPageFrameKind::Footer, rect, &layout.regions[r], repetition));
                match append_region_fragments(
                    &mut fragments,
                    body_page.page_index,
                    &master.master_id,
                    rect,
                    &layout.regions[r],
                    repetition,
                ) {
                    Ok(()) => {},
                    Err(e) => return Err(e),
                }
            },
            (None, None) => {},
            _ => return Err(StagingHeaderFooterPaginationError::MasterReceiptMismatch),
        }
        let ghost before_pages = pages@;
        let ghost n = master_uses(selection@, index as int, m as int);
        proof {
            let hi = region_index(layout.regions@, m, StagingPageRegionKind::Header, 0);
            let fi = region_index(layout.regions@, m, StagingPageRegionKind::Footer, 0);
            if master.header is Some {
                assert(hi is Some);
                assert(header_fragments.len() == layout.regions@[hi->0].blocks@.len());
                assert forall|t: int| 0 <= t < header_fragments.len() implies region_fragment_of(
                    #[trigger] fragments@[t],
                    body_page.page_index,
                    master.master_id@,
                    master.header->0,
                    layout.regions@[hi->0],
                    n as u32,
                    layout.regions@[hi->0].blocks@[t],
                ) by {
                    assert(fragments@[t] == header_fragments[t]);
                    assert(header_fragments[0 + t] == header_fragments[t]);
                }
            } else {
                assert(header_fragments.len() == 0);
            }
            if master.footer is Some {
                assert(fi is Some);
                assert forall|t: int| 0 <= t < layout.regions@[fi->0].blocks@.len() implies region_fragment_of(
                    #[trigger] fragments@[header_fragments.len() + t],
                    body_page.page_index,
                    master.master_id@,
                    master.footer->0,
                    layout.regions@[fi->0],
                    n as u32,
                    layout.regions@[fi->0].blocks@[t],
                ) by {
                }
            } else {
                assert(fragments@ == header_fragments);
            }
        }
        pages.push(
            StagingSelectedAdvancedPage {
                page_index: body_page.page_index,
                master_id: master.master_id.clone(),
                boxes,
                margins,
                frames,
                region_fragments: fragments,
            },
        );
        proof {
            assert forall|mm: int| 0 <= mm < layout.masters@.len() implies #[trigger] uses_recorded(
                counters@,
                layout.masters@,
                selection@,
                index + 1,
                mm,
            ) by {
                assert(uses_recorded(counters_before, layout.masters@, selection@, index as int, mm));
                if mm != m {
                    assert(counters@[2 * mm] == counters_before[2 * mm]);
                    assert(counters@[2 * mm + 1] == counters_before[2 * mm + 1]);
                }
            }
            assert forall|i: int| 0 <= i < index + 1 implies regions_selected(
                #[trigger] pages@[i],
                layout.regions@,
                selection@[i],
                layout.masters@[selection@[i] as int],
                master_uses(selection@, i, selection@[i] as int),
            ) by {
                if i < index {
                    assert(pages@[i] == before_pages[i]);
                }
            }
        }
        index = index + 1;
    }
    let canonical_jcs = encode_selected_layout(
        &layout.profile_receipt_sha256,
        &layout.flow_registry_sha256,
        pages.as_slice(),
    );
    let selected_layout_sha256 = fingerprint_text(&canonical_jcs);
    let receipt = StagingHeaderFooterSelectedLayoutReceipt {
        profile_receipt_sha256: layout.profile_receipt_sha256,
        flow_registry_sha256: layout.flow_registry_sha256,
        selected_layout_sha256,
        canonical_jcs,
    };
    Ok(StagingHeaderFooterSelectedLayout { pages, receipt })
}

} // verus!
