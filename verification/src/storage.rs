//! Path arithmetic of the backing-store drivers.
//!
//! The drivers themselves do I/O and live with the process; what they
//! agree on — how a logical path maps to a path under the store's root,
//! with separators normalised — is computed and specified here.

use vstd::prelude::*;

verus! {

use vstd::string::{StrSliceExecFns, StringExecFns};
use crate::text::{spec_normalize_separators, replace_backslashes};

/// The local driver's root; the same joining rule serves the SFTP driver.
#[derive(Clone, Debug)]
pub struct Local {
    pub root: String,
}

/// Where a logical path lives under a store root: the root itself for the
/// empty path, else root, slash and path, with backslashes normalised.
pub open spec fn spec_full_path(root: Seq<char>, path: Seq<char>) -> Seq<char> {
    if path.len() == 0 {
        root
    } else {
        spec_normalize_separators(root + seq!['/'] + path)
    }
}

impl Local {
    /// The store path a logical path maps to.
    pub fn full_path(&self, path: &str) -> (r: String)
        ensures
            r@ == spec_full_path(self.root@, path@),
    {
        if path.unicode_len() == 0 {
            return self.root.clone();
        }
        let mut joined = self.root.clone();
        joined.append("/");
        joined.append(path);
        proof {
            reveal_strlit("/");
            assert("/"@ =~= seq!['/']);
            assert(joined@ =~= self.root@ + seq!['/'] + path@);
        }
        replace_backslashes(joined.as_str())
    }
}

} // verus!
