//! Booklet imposition order: which original page lands on which quarter
//! of which sheet when the stack is folded. Four pages per sheet; a slot
//! past the document's end stays blank.
use vstd::prelude::*;

verus! {

/// The page laid on a slot, or a blank where the document has none.
pub open spec fn spec_booklet_slot(p: int, num_pages: u32) -> Option<u32> {
    if 1 <= p <= num_pages {
        Some(p as u32)
    } else {
        None
    }
}

/// The four slots of one sheet, outermost pages first: with `t` pages
/// padded to a multiple of four, sheet `s` carries, in order, pages
/// `t - 2s`, `2s + 1`, `2s + 2` and `t - 2s - 1`.
pub open spec fn spec_booklet_sheet(s: int, num_pages: u32, total_needed: int) -> Seq<Option<u32>> {
    seq![
        spec_booklet_slot(total_needed - 2 * s, num_pages),
        spec_booklet_slot(2 * s + 1, num_pages),
        spec_booklet_slot(2 * s + 2, num_pages),
        spec_booklet_slot(total_needed - 2 * s - 1, num_pages),
    ]
}

/// The column-by-row grid a multi-up imposition uses for a supported
/// pages-per-sheet count; other counts have no grid.
pub open spec fn spec_nup_grid(pages_per_sheet: u32) -> Option<(u32, u32)> {
    if pages_per_sheet == 2 {
        Some((2u32, 1u32))
    } else if pages_per_sheet == 4 {
        Some((2u32, 2u32))
    } else if pages_per_sheet == 6 {
        Some((3u32, 2u32))
    } else if pages_per_sheet == 9 {
        Some((3u32, 3u32))
    } else {
        None
    }
}

/// Picks the grid for a multi-up imposition: columns by rows, exactly
/// for the supported pages-per-sheet counts.
pub fn nup_grid(pages_per_sheet: u32) -> (r: Option<(u32, u32)>)
    ensures
        r == spec_nup_grid(pages_per_sheet),
{
    if pages_per_sheet == 2 {
        Some((2, 1))
    } else if pages_per_sheet == 4 {
        Some((2, 2))
    } else if pages_per_sheet == 6 {
        Some((3, 2))
    } else if pages_per_sheet == 9 {
        Some((3, 3))
    } else {
        None
    }
}

/// A computed booklet layout: the sheet count and, per sheet, the four
/// page slots.
#[derive(Debug)]
pub struct BookletLayout {
    pub total_sheets: u32,
    pub pages_per_sheet: u32,
    pub page_order: Vec<Vec<Option<u32>>>,
}

pub open spec fn sheet_views(v: Seq<Vec<Option<u32>>>) -> Seq<Seq<Option<u32>>> {
    v.map_values(|x: Vec<Option<u32>>| x@)
}

/// Lays a document out as a booklet: enough sheets for all pages at four
/// per sheet, each sheet holding exactly the slots of the imposition
/// order.
pub fn generate_booklet_layout_internal(num_pages: u32) -> (r: BookletLayout)
    requires
        num_pages <= u32::MAX - 3,
    ensures
        r.pages_per_sheet == 4,
        r.total_sheets == (num_pages + 3) / 4,
        r.page_order@.len() == r.total_sheets,
        forall|s: int|
            0 <= s < r.total_sheets ==> (#[trigger] sheet_views(r.page_order@)[s])
                == spec_booklet_sheet(s, num_pages, 4 * ((num_pages + 3) as int / 4)),
{
    let total_sheets = (num_pages + 3) / 4;
    proof {
        vstd::arithmetic::div_mod::lemma_fundamental_div_mod((num_pages + 3) as int, 4);
    }
    let total_needed = total_sheets * 4;
    let mut page_order: Vec<Vec<Option<u32>>> = Vec::new();
    let mut sheet: u32 = 0;
    while sheet < total_sheets
        invariant
            sheet <= total_sheets,
            total_sheets == (num_pages + 3) / 4,
            total_needed == total_sheets * 4,
            total_needed <= num_pages + 3,
            page_order@.len() == sheet,
            forall|s: int|
                0 <= s < sheet ==> (#[trigger] sheet_views(page_order@)[s]) == spec_booklet_sheet(
                    s,
                    num_pages,
                    total_needed as int,
                ),
        decreases total_sheets - sheet,
    {
        proof {
            assert(2 * sheet + 2 <= total_needed) by (nonlinear_arith)
                requires
                    sheet < total_sheets,
                    total_needed == total_sheets * 4,
            ;
        }
        let right_outer = total_needed - sheet * 2;
        let right_inner = sheet * 2 + 1;
        let left_inner = sheet * 2 + 2;
        let left_outer = total_needed - sheet * 2 - 1;
        let mut slots: Vec<Option<u32>> = Vec::new();
        slots.push(
            if right_outer >= 1 && right_outer <= num_pages {
                Some(right_outer)
            } else {
                None
            },
        );
        slots.push(
            if right_inner <= num_pages {
                Some(right_inner)
            } else {
                None
            },
        );
        slots.push(
            if left_inner <= num_pages {
                Some(left_inner)
            } else {
                None
            },
        );
        slots.push(
            if left_outer >= 1 && left_outer <= num_pages {
                Some(left_outer)
            } else {
                None
            },
        );
        proof {
            assert(slots@ =~= spec_booklet_sheet(sheet as int, num_pages, total_needed as int));
        }
        let ghost prev = page_order@;
        page_order.push(slots);
        proof {
            assert(sheet_views(page_order@) =~= sheet_views(prev).push(
                page_order@[prev.len() as int]@,
            ));
        }
        sheet = sheet + 1;
    }
    BookletLayout { total_sheets, pages_per_sheet: 4, page_order }
}

} // verus!
