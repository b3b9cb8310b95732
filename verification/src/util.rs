//! The tool's data directory.
//!
//! The directory sits under the user's home directory; the caller reads
//! the home path from its environment and injects it here, which keeps
//! this library free of environment lookups.

use vstd::prelude::*;

use crate::paths::join_path;

verus! {

/// The name of the tool's data directory, `.recast`.
pub open spec fn data_dir_name() -> Seq<u8> {
    seq![46u8, 114u8, 101u8, 99u8, 97u8, 115u8, 116u8]
}

/// The data directory: `.recast` under the given home directory.
pub fn data_dir(home: &Vec<u8>, sep: u8) -> (r: Vec<u8>)
    ensures
        r@ == home@ + seq![sep] + data_dir_name(),
{
    let name: Vec<u8> = vec![46u8, 114u8, 101u8, 99u8, 97u8, 115u8, 116u8];
    proof {
        assert(name@ =~= data_dir_name());
    }
    join_path(home, sep, &name)
}

} // verus!
