//! The typed configuration: declared kinds and the template table, with
//! permission-mode normalization applied as the kinds are taken in. The
//! document parsing itself happens outside the library; this module
//! receives plain values and validates and normalizes them.

use vstd::prelude::*;
use crate::chmod::{interpret_chmod_value, spec_interpret_chmod};

verus! {

/// One declared kind of scratch file: a filename suffix (used without a
/// leading dot), an optional permission mode, and a content template.
#[derive(Debug, Clone)]
pub struct Kind {
    pub name: String,
    pub chmod: Option<u32>,
    pub suffix: String,
    pub content: String,
}

/// A loaded configuration: the declared kinds and the template table,
/// kept in a fixed order so that resolution is deterministic.
#[derive(Debug)]
pub struct Config {
    pub kinds: Vec<Kind>,
    pub templates: Vec<(String, String)>,
}

/// `b` is `a` with its permission mode normalized and everything else
/// preserved byte for byte.
pub open spec fn kind_normalized(a: Kind, b: Kind) -> bool {
    &&& b.name@ == a.name@
    &&& b.suffix@ == a.suffix@
    &&& b.content@ == a.content@
    &&& b.chmod == (match a.chmod {
        Some(v) => Some(spec_interpret_chmod(v)),
        None => None::<u32>,
    })
}

impl Config {
    /// Assemble a configuration from raw kinds and templates, normalizing
    /// each kind's `chmod` and preserving every name, suffix, and content
    /// unchanged.
    pub fn from_raw(kinds: Vec<Kind>, templates: Vec<(String, String)>) -> (c: Config)
        ensures
            c.kinds@.len() == kinds@.len(),
            forall|i: int| 0 <= i < kinds@.len() ==> kind_normalized(kinds@[i], #[trigger] c.kinds@[i]),
            c.templates == templates,
    {
        let mut out: Vec<Kind> = Vec::new();
        let mut idx: usize = 0;
        while idx < kinds.len()
            invariant
                idx <= kinds@.len(),
                out@.len() == idx,
                forall|i: int| 0 <= i < idx ==> kind_normalized(kinds@[i], #[trigger] out@[i]),
            decreases kinds@.len() - idx,
        {
            let k = &kinds[idx];
            let chmod = match k.chmod {
                Some(v) => Some(interpret_chmod_value(v)),
                None => None,
            };
            out.push(
                Kind {
                    name: k.name.clone(),
                    chmod,
                    suffix: k.suffix.clone(),
                    content: k.content.clone(),
                },
            );
            idx = idx + 1;
        }
        Config { kinds: out, templates }
    }
}

} // verus!
