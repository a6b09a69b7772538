//! The build identifier reported by the `version` verb.

use vstd::prelude::*;

use crate::text::truncate;

verus! {

/// The characters of the build identifier.
pub open spec fn version_string_view() -> Seq<char> {
    "kuiper-runtime"@ + " v"@ + "0.1.0"@ + "-"@ + "devbuild"@
}

/// The build identifier: package name, package version, and a build tag
/// cut to eight characters.
pub fn get_version_string() -> (r: String)
    ensures
        r@ == version_string_view(),
{
    let mut s = String::from_str("kuiper-runtime");
    s.append(" v");
    s.append("0.1.0");
    s.append("-");
    proof {
        reveal_strlit("devbuild");
        assert("devbuild"@.len() == 8);
    }
    s.append(truncate("devbuild", 8));
    s
}

} // verus!
