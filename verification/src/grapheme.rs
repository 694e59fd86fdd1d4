//! Where the user-perceived characters of a text begin.

use vstd::prelude::*;

verus! {

/// The extended grapheme clusters of a text, in order: for each cluster the
/// byte at which it begins and the number of bytes it takes.
pub uninterp spec fn grapheme_clusters(text: Seq<char>) -> Seq<(usize, usize)>;

/// Segments `text` into extended grapheme clusters.
///
/// Calls `UnicodeSegmentation::grapheme_indices` with `is_extended` set and
/// keeps, of each cluster it yields, the byte offset and the length in
/// bytes. The segmentation follows the Unicode rules for cluster
/// boundaries, which are not restated here: the contract only gives the
/// result its name.
#[verifier::external_body]
pub(crate) fn segment(text: &str) -> (clusters: Vec<(usize, usize)>)
    ensures
        clusters@ == grapheme_clusters(text@),
{
    unicode_segmentation::UnicodeSegmentation::grapheme_indices(text, true)
        .map(|(at, cluster)| (at, cluster.len()))
        .collect()
}

} // verus!
