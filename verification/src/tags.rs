//! Per-chunk tag derivation: the fields a chunk's metadata tag gets,
//! computed as plain values. Reading and persisting the tag set on disk is
//! I/O and lives outside the library; only the derivation is logic.
use vstd::prelude::*;
use vstd::string::StringExecFns;

use crate::naming::spec_decimal;

verus! {

/// The fields the splitter rewrites on each chunk's tag set: a title (only
/// when the source tag carried one) and a 1-based track number.
pub struct ChunkTag {
    /// The chunk's title: the original title with a part annotation, or
    /// nothing if the source had no title.
    pub title: Option<String>,
    /// The chunk's 1-based track number.
    pub track: u32,
}

/// The title of chunk `index` of `total`: the original title followed by
/// ` (Part {index}/{total})`.
pub open spec fn spec_chunk_title(title: Seq<char>, index: int, total: int) -> Seq<char> {
    title + " (Part "@ + spec_decimal(index) + "/"@ + spec_decimal(total) + ")"@
}

/// Append the part annotation for chunk `index` of `total` to a title.
pub fn derive_chunk_title(title: &str, index: usize, total: usize) -> (t: String)
    ensures
        t@ == spec_chunk_title(title@, index as int, total as int),
{
    let mut t = String::from_str(title);
    t.append(" (Part ");
    let idx = crate::naming::u64_to_string(index as u64);
    t.append(idx.as_str());
    t.append("/");
    let tot = crate::naming::u64_to_string(total as u64);
    t.append(tot.as_str());
    t.append(")");
    proof {
        assert(t@ =~= spec_chunk_title(title@, index as int, total as int));
    }
    t
}

/// Derive the tag fields of chunk `index` (1-based) of `total` from the
/// source tag's title: the title gains a part annotation when one existed,
/// and the track number becomes the chunk index.
pub fn derive_chunk_tag(source_title: Option<&str>, index: usize, total: usize) -> (t: ChunkTag)
    requires
        index <= u32::MAX,
    ensures
        t.track == index as u32,
        source_title is None ==> t.title is None,
        source_title matches Some(st) ==> t.title matches Some(nt) && nt@ == spec_chunk_title(
            st@,
            index as int,
            total as int,
        ),
{
    let title = match source_title {
        Some(st) => Some(derive_chunk_title(st, index, total)),
        None => None,
    };
    ChunkTag { title, track: index as u32 }
}

} // verus!
