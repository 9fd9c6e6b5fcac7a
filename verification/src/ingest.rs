//! Multi-source page ingestion.
//!
//! One user selection may mix single images and multi-page documents.  A
//! multi-page source contributes one entry per page, in its internal
//! order; a single image contributes one entry; the merged sequence keeps
//! the order in which sources were selected, with each document's pages
//! contiguous.

use vstd::prelude::*;

use crate::fs_state::clone_bytes;

verus! {

/// One selected source: a lone raster image, or a multi-page document
/// already expanded into per-page image buffers.
pub enum PageSource {
    SingleImage(Vec<u8>),
    MultiPage(Vec<Vec<u8>>),
}

pub open spec fn bufs_view(s: Seq<Vec<u8>>) -> Seq<Seq<u8>> {
    s.map_values(|b: Vec<u8>| b@)
}

/// The page buffers one source contributes, in order.
pub open spec fn source_pages(s: PageSource) -> Seq<Seq<u8>> {
    match s {
        PageSource::SingleImage(b) => seq![b@],
        PageSource::MultiPage(v) => bufs_view(v@),
    }
}

/// The merged page sequence of a selection: each source expanded in
/// place, selection order preserved.
pub open spec fn merged_pages(sources: Seq<PageSource>) -> Seq<Seq<u8>>
    decreases sources.len(),
{
    if sources.len() == 0 {
        Seq::empty()
    } else {
        merged_pages(sources.drop_last()) + source_pages(sources.last())
    }
}

/// Merges one selection of sources into the ordered page sequence that
/// an attachment commit receives.
pub fn merge_sources(sources: &Vec<PageSource>) -> (pages: Vec<Vec<u8>>)
    ensures
        bufs_view(pages@) == merged_pages(sources@),
{
    let mut pages: Vec<Vec<u8>> = Vec::new();
    let mut i: usize = 0;
    while i < sources.len()
        invariant
            i <= sources.len(),
            bufs_view(pages@) == merged_pages(sources@.subrange(0, i as int)),
        decreases sources.len() - i,
    {
        let ghost prefix = sources@.subrange(0, i as int);
        match &sources[i] {
            PageSource::SingleImage(b) => {
                pages.push(clone_bytes(b));
            },
            PageSource::MultiPage(v) => {
                let ghost entered = bufs_view(pages@);
                let mut k: usize = 0;
                while k < v.len()
                    invariant
                        k <= v.len(),
                        bufs_view(pages@) == entered + bufs_view(v@).subrange(0, k as int),
                    decreases v.len() - k,
                {
                    let ghost before_b = bufs_view(pages@);
                    let nb = clone_bytes(&v[k]);
                    proof {
                        assert(nb@ == v@[k as int]@);
                    }
                    pages.push(nb);
                    proof {
                        assert(bufs_view(pages@) =~~= before_b.push(v@[k as int]@));
                        assert(bufs_view(v@).subrange(0, k + 1) =~~= bufs_view(v@).subrange(
                            0,
                            k as int,
                        ).push(v@[k as int]@));
                        assert(bufs_view(pages@) =~~= entered + bufs_view(v@).subrange(0, k + 1));
                    }
                    k = k + 1;
                }
                proof {
                    assert(bufs_view(v@).subrange(0, v@.len() as int) =~~= bufs_view(v@));
                }
            },
        }
        proof {
            assert(sources@.subrange(0, i + 1).drop_last() =~= prefix);
            assert(sources@.subrange(0, i + 1).last() == sources@[i as int]);
            assert(bufs_view(pages@) =~~= merged_pages(sources@.subrange(0, i + 1)));
        }
        i = i + 1;
    }
    proof {
        assert(sources@.subrange(0, sources@.len() as int) =~= sources@);
    }
    pages
}

} // verus!
