//! The export planner: turns an attachment's ordered page bytes into a
//! plan for one multi-page document.
//!
//! Each page is decoded, re-encoded to the canonical format, compressed
//! under the lower-fidelity export profile, and given a placement: its
//! pixel dimensions scaled at a fixed dots-per-inch assumption onto a
//! standard output page, shrunk to fit if necessary and centered.  One
//! undecodable page aborts the whole export — a partial output document
//! is never an acceptable result.

use vstd::prelude::*;

use crate::codec::CodecError;
use crate::codec::decodable;
use crate::codec::decode_to_canonical;
use crate::codec::compress_export;
use crate::codec::dimensions;
use crate::codec::is_png_sig;
use crate::codec::spec_placeholder_png;
use crate::codec::px_height;
use crate::codec::px_width;
use crate::ingest::bufs_view;

verus! {

/// Output page width, in points.
pub const PAGE_W_PT: u32 = 595;

/// Output page height, in points.
pub const PAGE_H_PT: u32 = 842;

/// The fixed raster density assumed when scaling pixels to points:
/// one pixel is 72/96 of a point.
pub const EXPORT_DPI: u32 = 96;

/// How one source page lands on the output page: scaled at the fixed
/// density, shrunk proportionally when it would overflow, and centered.
/// Returns (x, y, width, height) in points.
pub open spec fn spec_placement(wpx: u32, hpx: u32) -> (int, int, int, int) {
    let nw = wpx * 72 / (EXPORT_DPI as int);
    let nh = hpx * 72 / (EXPORT_DPI as int);
    let dims = if nw <= PAGE_W_PT as int && nh <= PAGE_H_PT as int {
        (nw, nh)
    } else if nw * (PAGE_H_PT as int) >= nh * (PAGE_W_PT as int) {
        (PAGE_W_PT as int, nh * (PAGE_W_PT as int) / nw)
    } else {
        (nw * (PAGE_H_PT as int) / nh, PAGE_H_PT as int)
    };
    (
        ((PAGE_W_PT as int) - dims.0) / 2,
        ((PAGE_H_PT as int) - dims.1) / 2,
        dims.0,
        dims.1,
    )
}

/// One planned output page: the encoded bytes to embed, the source pixel
/// dimensions, and the placement on the output page.
pub struct PagePlan {
    pub bytes: Vec<u8>,
    pub width_px: u32,
    pub height_px: u32,
    pub x_pt: u32,
    pub y_pt: u32,
    pub w_pt: u32,
    pub h_pt: u32,
}

/// Why an export is refused.
#[derive(Clone, Copy, Debug, PartialEq, Eq, Structural)]
pub enum ExportError {
    /// A page's bytes cannot be decoded; the whole export aborts.
    UndecodablePage,
    /// There is nothing to export.
    EmptyPageSet,
}

/// Computes the placement of one page.
pub fn place_page(wpx: u32, hpx: u32) -> (r: (u32, u32, u32, u32))
    ensures
        (r.0 as int, r.1 as int, r.2 as int, r.3 as int) == spec_placement(wpx, hpx),
        r.2 <= PAGE_W_PT,
        r.3 <= PAGE_H_PT,
        r.0 == (PAGE_W_PT - r.2) / 2,
        r.1 == (PAGE_H_PT - r.3) / 2,
{
    let nw: u64 = wpx as u64 * 72 / EXPORT_DPI as u64;
    let nh: u64 = hpx as u64 * 72 / EXPORT_DPI as u64;
    let pw: u64 = PAGE_W_PT as u64;
    let ph: u64 = PAGE_H_PT as u64;
    let (w, h): (u64, u64) = if nw <= pw && nh <= ph {
        (nw, nh)
    } else if nw * ph >= nh * pw {
        proof {
            if nw == 0 {
                assert(nh as int * pw as int == 0) by (nonlinear_arith)
                    requires
                        nh as int * pw as int <= nw as int * ph as int,
                        nw as int == 0,
                ;
                assert(false);
            }
            assert(nh as int * pw as int / (nw as int) <= ph as int) by (nonlinear_arith)
                requires
                    nh as int * pw as int <= nw as int * ph as int,
                    nw as int > 0,
            ;
        }
        (pw, nh * pw / nw)
    } else {
        proof {
            if nh == 0 {
                assert(false);
            }
            assert(nw as int * ph as int / (nh as int) <= pw as int) by (nonlinear_arith)
                requires
                    nw as int * ph as int <= nh as int * pw as int,
                    nh as int > 0,
            ;
        }
        (nw * ph / nh, ph)
    };
    let x: u64 = (pw - w) / 2;
    let y: u64 = (ph - h) / 2;
    (x as u32, y as u32, w as u32, h as u32)
}

/// Plans the export of one attachment's ordered page sequence.  The plan
/// exists exactly when the sequence is non-empty and every page decodes;
/// pages appear in the plan in source order, one output page each.
pub fn plan_export(pages: &Vec<Vec<u8>>) -> (r: Result<Vec<PagePlan>, ExportError>)
    ensures
        pages@.len() == 0 <==> r == Err::<Vec<PagePlan>, ExportError>(ExportError::EmptyPageSet),
        r == Err::<Vec<PagePlan>, ExportError>(ExportError::UndecodablePage) <==> pages@.len() > 0
            && (exists|i: int|
            0 <= i < pages@.len() && !decodable(#[trigger] bufs_view(pages@)[i])),
        r matches Ok(plan) ==> plan@.len() == pages@.len() && (forall|i: int|
            0 <= i < pages@.len() ==> decodable(#[trigger] bufs_view(pages@)[i])) && (forall|
            i: int,
        |
            0 <= i < plan@.len() ==> ((#[trigger] plan@[i]).width_px == px_width(
                bufs_view(pages@)[i],
            ) && plan@[i].height_px == px_height(bufs_view(pages@)[i]) && is_png_sig(
                plan@[i].bytes@,
            ) && (decodable(plan@[i].bytes@) && px_width(plan@[i].bytes@) == plan@[i].width_px
                && px_height(plan@[i].bytes@) == plan@[i].height_px || plan@[i].bytes@
                == spec_placeholder_png()) && (
            plan@[i].x_pt as int,
            plan@[i].y_pt as int,
            plan@[i].w_pt as int,
            plan@[i].h_pt as int,
            ) == spec_placement(plan@[i].width_px, plan@[i].height_px))),
{
    if pages.len() == 0 {
        return Err(ExportError::EmptyPageSet);
    }
    let mut plan: Vec<PagePlan> = Vec::new();
    let mut i: usize = 0;
    while i < pages.len()
        invariant
            i <= pages.len(),
            plan@.len() == i,
            forall|k: int| 0 <= k < i ==> decodable(#[trigger] bufs_view(pages@)[k]),
            forall|k: int|
                0 <= k < i ==> ((#[trigger] plan@[k]).width_px == px_width(bufs_view(pages@)[k])
                    && plan@[k].height_px == px_height(bufs_view(pages@)[k]) && is_png_sig(
                    plan@[k].bytes@,
                ) && (decodable(plan@[k].bytes@) && px_width(plan@[k].bytes@)
                    == plan@[k].width_px && px_height(plan@[k].bytes@) == plan@[k].height_px
                    || plan@[k].bytes@ == spec_placeholder_png()) && (
                plan@[k].x_pt as int,
                plan@[k].y_pt as int,
                plan@[k].w_pt as int,
                plan@[k].h_pt as int,
                ) == spec_placement(plan@[k].width_px, plan@[k].height_px)),
        decreases pages.len() - i,
    {
        let canonical = match decode_to_canonical(&pages[i]) {
            Err(_) => {
                proof {
                    assert(!decodable(bufs_view(pages@)[i as int]));
                }
                return Err(ExportError::UndecodablePage);
            },
            Ok(c) => c,
        };
        let dims = match dimensions(&canonical) {
            Err(_) => {
                proof {
                    assert(false);
                }
                return Err(ExportError::UndecodablePage);
            },
            Ok(d) => d,
        };
        let compressed = compress_export(canonical);
        let placed = place_page(dims.0, dims.1);
        plan.push(
            PagePlan {
                bytes: compressed,
                width_px: dims.0,
                height_px: dims.1,
                x_pt: placed.0,
                y_pt: placed.1,
                w_pt: placed.2,
                h_pt: placed.3,
            },
        );
        i = i + 1;
    }
    Ok(plan)
}

} // verus!
