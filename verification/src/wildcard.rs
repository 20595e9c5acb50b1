//! Which metadata types accept the wildcard member `*`.
use vstd::prelude::*;

use crate::text::str_eq;

verus! {

// Folder-based metadata types do not support wildcard (*) retrieval: these are the
// types with a "folderType" property in source-deploy-retrieve's metadataRegistry.json
// (tag v6.3.1).
pub const FOLDER_BASED_TYPES: [&'static str; 4] = ["Dashboard", "Document", "EmailTemplate", "Report"];

/// The names of the folder-based metadata types.
pub open spec fn folder_based_names() -> Seq<Seq<char>> {
    seq!["Dashboard"@, "Document"@, "EmailTemplate"@, "Report"@]
}

/// A type supports the wildcard unless it is folder-based; unknown types do.
pub open spec fn spec_supports_wildcard(xml_name: Seq<char>) -> bool {
    !folder_based_names().contains(xml_name)
}

/// Returns `true` if the metadata type supports wildcard (`*`) member selection.
///
/// Types not in the folder-based list are assumed to support wildcard by default.
pub fn supports_wildcard(xml_name: &str) -> (r: bool)
    ensures
        r == spec_supports_wildcard(xml_name@),
{
    let names = FOLDER_BASED_TYPES;
    assert(names@.map_values(|s: &str| s@) =~= folder_based_names());
    let mut i: usize = 0;
    while i < 4
        invariant
            i <= 4,
            names@.map_values(|s: &str| s@) == folder_based_names(),
            forall|j: int| 0 <= j < i ==> folder_based_names()[j] != xml_name@,
        decreases 4 - i,
    {
        if str_eq(names[i], xml_name) {
            assert(folder_based_names()[i as int] == xml_name@);
            return false;
        }
        i = i + 1;
    }
    true
}

} // verus!
