//! Names of files within an index directory.

use vstd::prelude::*;
use vstd::string::*;

verus! {

/// The manifest.
pub const INDEX_JSON: &'static str = "index.json";

/// Directory of the ternary weights.
pub const BITNET_DIR: &'static str = "bitnet";

/// Copy of the ternary layout that the manifest holds.
pub const BITNET_LAYOUT_JSON: &'static str = "bitnet_layout.json";

/// The scales of every ternary matrix, one after the other.
pub const BITNET_SCALES_BIN: &'static str = "bitnet/scales.f32";

/// File of one ternary matrix's packed bytes, from the index directory.
pub open spec fn tensor_path(tensor_name: Seq<char>) -> Seq<char> {
    "bitnet/"@ + tensor_name + ".i2s"@
}

/// File of one ternary matrix's packed bytes, such as
/// `bitnet/blk.0.attn_q.weight.i2s`.
pub fn bitnet_tensor_filename(tensor_name: &str) -> (path: String)
    ensures
        path@ == tensor_path(tensor_name@),
{
    let mut path: String = String::from_str("bitnet/");
    path.append(tensor_name);
    path.append(".i2s");
    path
}

/// Each matrix has a file of its own, in the directory of the ternary weights:
/// its name stands between the directory and the ending, and no two names give
/// the same file.
pub proof fn files_are_apart(a: Seq<char>, b: Seq<char>)
    ensures
        tensor_path(a).len() == a.len() + 11,
        tensor_path(a).subrange(7, 7 + a.len() as int) == a,
        tensor_path(a)[6] == '/',
        tensor_path(a) == tensor_path(b) ==> a == b,
{
    reveal_strlit("bitnet/");
    reveal_strlit(".i2s");
    assert(tensor_path(a).subrange(7, 7 + a.len() as int) =~= a);
    assert(tensor_path(b).subrange(7, 7 + b.len() as int) =~= b);
}

} // verus!
