//! The file materializer's decision rules: filename derivation from a name
//! hint and a kind's suffix, and the exact plan (create, remove, or leave
//! alone, and what to print) for a write, delete, or preview request. The
//! surrounding binary checks whether the target exists, hands that fact
//! in, and carries out the returned plan; the rules themselves live here.

use vstd::prelude::*;
use crate::config::Kind;
use crate::errors::TmpError;
use crate::registry::Tmp;
use crate::text::{ends_with_str, spec_ends_with};

verus! {

/// The filename derived from a name hint: the suffix is appended with a
/// dot unless it is empty or already present.
pub open spec fn spec_derived_name(hint: Seq<char>, suffix: Seq<char>) -> Seq<char> {
    if suffix.len() == 0 {
        hint
    } else if spec_ends_with(hint, seq!['.'] + suffix) {
        hint
    } else {
        hint + seq!['.'] + suffix
    }
}

/// The target filename: the derived hint, or `tmp` (with the suffix when
/// there is one) when no hint is given.
pub open spec fn spec_target_filename(hint: Option<Seq<char>>, suffix: Seq<char>) -> Seq<char> {
    match hint {
        Some(h) => spec_derived_name(h, suffix),
        None => if suffix.len() == 0 {
            seq!['t', 'm', 'p']
        } else {
            seq!['t', 'm', 'p', '.'] + suffix
        },
    }
}

/// The character view of an optional name hint.
pub open spec fn hint_view(hint: Option<&str>) -> Option<Seq<char>> {
    match hint {
        Some(h) => Some(h@),
        None => None,
    }
}

/// Filename derivation is idempotent: deriving from an already-derived
/// filename yields the same filename.
pub proof fn lemma_derived_name_idempotent(hint: Seq<char>, suffix: Seq<char>)
    ensures
        spec_derived_name(spec_derived_name(hint, suffix), suffix) == spec_derived_name(
            hint,
            suffix,
        ),
{
    if suffix.len() == 0 {
    } else {
        let dot_suffix = seq!['.'] + suffix;
        if !spec_ends_with(hint, dot_suffix) {
            let d = hint + seq!['.'] + suffix;
            assert(d.skip(d.len() - dot_suffix.len()) =~= dot_suffix);
        }
    }
}

/// The default target filename needs no further derivation either.
pub proof fn lemma_target_filename_stable(hint: Option<Seq<char>>, suffix: Seq<char>)
    ensures
        spec_derived_name(spec_target_filename(hint, suffix), suffix) == spec_target_filename(
            hint,
            suffix,
        ),
{
    match hint {
        Some(h) => lemma_derived_name_idempotent(h, suffix),
        None => {
            if suffix.len() != 0 {
                let t = seq!['t', 'm', 'p', '.'] + suffix;
                assert(t.skip(t.len() - (seq!['.'] + suffix).len()) =~= seq!['.'] + suffix);
            }
        },
    }
}

/// Derive the full filename from a name hint and a suffix.
pub fn derive_filename(hint: &str, suffix: &str) -> (r: String)
    ensures
        r@ == spec_derived_name(hint@, suffix@),
{
    if suffix.unicode_len() == 0 {
        String::from_str(hint)
    } else {
        let dot_suffix = String::from_str(".").concat(suffix);
        proof {
            reveal_strlit(".");
            assert(dot_suffix@ =~= seq!['.'] + suffix@);
        }
        if ends_with_str(hint, dot_suffix.as_str()) {
            String::from_str(hint)
        } else {
            String::from_str(hint).concat(dot_suffix.as_str())
        }
    }
}

/// The target filename for an optional name hint and a suffix.
pub fn target_filename(hint: Option<&str>, suffix: &str) -> (r: String)
    ensures
        r@ == spec_target_filename(hint_view(hint), suffix@),
{
    match hint {
        Some(h) => derive_filename(h, suffix),
        None => {
            if suffix.unicode_len() == 0 {
                let r = String::from_str("tmp");
                proof {
                    reveal_strlit("tmp");
                    assert(r@ =~= seq!['t', 'm', 'p']);
                }
                r
            } else {
                let r = String::from_str("tmp.").concat(suffix);
                proof {
                    reveal_strlit("tmp.");
                    assert(r@ =~= seq!['t', 'm', 'p', '.'] + suffix@);
                }
                r
            }
        },
    }
}

/// What one invocation must do to the filesystem.
#[derive(Debug)]
pub enum FileAction {
    /// Leave the filesystem untouched.
    NoChange,
    /// Create the file with this content, then apply the mode if one is
    /// given.
    CreateNew { path: String, content: String, mode: Option<u32> },
    /// Remove the existing file.
    RemoveExisting { path: String },
}

/// The planned outcome of one invocation: a filesystem action and, for a
/// preview, the content to print.
#[derive(Debug)]
pub struct Outcome {
    pub action: FileAction,
    pub printed: Option<String>,
}

/// The plan an invocation must produce for a kind: nerf prints the
/// resolved content and touches nothing; delete removes the target only
/// if it exists; write creates the target only if it is missing, with the
/// caller's mode override taking precedence over the kind's mode.
pub open spec fn outcome_matches(
    k: Kind,
    hint: Option<Seq<char>>,
    override_mode: Option<u32>,
    nerf: bool,
    rm: bool,
    exists: bool,
    o: Outcome,
) -> bool {
    let fname = spec_target_filename(hint, k.suffix@);
    &&& (nerf ==> o.action is NoChange && (o.printed matches Some(c) && c@ == k.content@))
    &&& (!nerf ==> o.printed is None)
    &&& (!nerf && rm && exists ==> (o.action matches FileAction::RemoveExisting { path } && path@
        == fname))
    &&& (!nerf && rm && !exists ==> o.action is NoChange)
    &&& (!nerf && !rm && exists ==> o.action is NoChange)
    &&& (!nerf && !rm && !exists ==> (o.action matches FileAction::CreateNew {
        path,
        content,
        mode,
    } && path@ == fname && content@ == k.content@ && mode == (if override_mode is Some {
        override_mode
    } else {
        k.chmod
    })))
}

/// Plan one invocation against a kind. Nerf wins over delete, delete over
/// write; the target's existence decides between acting and skipping.
pub fn plan(
    kind: &Kind,
    hint: Option<&str>,
    override_mode: Option<u32>,
    nerf: bool,
    rm: bool,
    target_exists: bool,
) -> (o: Outcome)
    ensures
        outcome_matches(*kind, hint_view(hint), override_mode, nerf, rm, target_exists, o),
{
    if nerf {
        Outcome { action: FileAction::NoChange, printed: Some(kind.content.clone()) }
    } else if rm {
        if target_exists {
            let path = target_filename(hint, kind.suffix.as_str());
            Outcome { action: FileAction::RemoveExisting { path }, printed: None }
        } else {
            Outcome { action: FileAction::NoChange, printed: None }
        }
    } else {
        if target_exists {
            Outcome { action: FileAction::NoChange, printed: None }
        } else {
            let path = target_filename(hint, kind.suffix.as_str());
            let mode = match override_mode {
                Some(m) => Some(m),
                None => kind.chmod,
            };
            Outcome {
                action: FileAction::CreateNew { path, content: kind.content.clone(), mode },
                printed: None,
            }
        }
    }
}

/// Write is a no-op when the target file exists: the plan of a write
/// request against an existing target leaves the filesystem untouched.
pub proof fn lemma_write_skips_existing(
    k: Kind,
    hint: Option<Seq<char>>,
    override_mode: Option<u32>,
    o: Outcome,
)
    requires
        outcome_matches(k, hint, override_mode, false, false, true, o),
    ensures
        o.action is NoChange,
{
}

/// Delete is a no-op when the target file does not exist.
pub proof fn lemma_delete_missing_noop(
    k: Kind,
    hint: Option<Seq<char>>,
    override_mode: Option<u32>,
    o: Outcome,
)
    requires
        outcome_matches(k, hint, override_mode, false, true, false, o),
    ensures
        o.action is NoChange,
{
}

/// Nerf is observationally pure: whatever else is requested and whatever
/// the target's state, its plan never touches the filesystem, and it
/// prints exactly the kind's resolved content.
pub proof fn lemma_nerf_touches_nothing(
    k: Kind,
    hint: Option<Seq<char>>,
    override_mode: Option<u32>,
    rm: bool,
    exists: bool,
    o: Outcome,
)
    requires
        outcome_matches(k, hint, override_mode, true, rm, exists, o),
    ensures
        o.action is NoChange,
        o.printed matches Some(c) && c@ == k.content@,
{
}

impl Tmp {
    /// The target filename for a named kind, or the unknown-kind error.
    pub fn target_for(&self, kind_name: &str, hint: Option<&str>) -> (r: Result<String, TmpError>)
        ensures
            match r {
                Ok(f) => exists|i: int|
                    0 <= i < self.kinds@.len() && (#[trigger] self.kinds@[i]).name@ == kind_name@
                        && f@ == spec_target_filename(hint_view(hint), self.kinds@[i].suffix@) && (
                    forall|j: int| 0 <= j < i ==> (#[trigger] self.kinds@[j]).name@ != kind_name@),
                Err(e) => {
                    &&& forall|i: int|
                        0 <= i < self.kinds@.len() ==> (#[trigger] self.kinds@[i]).name@
                            != kind_name@
                    &&& (e matches TmpError::UnknownKind { name } && name@ == kind_name@)
                },
            },
    {
        match self.find_kind(kind_name) {
            Some(k) => Ok(target_filename(hint, k.suffix.as_str())),
            None => Err(TmpError::UnknownKind { name: String::from_str(kind_name) }),
        }
    }

    /// Plan one invocation against a named kind, or report that the kind
    /// is unknown.
    pub fn plan_invocation(
        &self,
        kind_name: &str,
        hint: Option<&str>,
        override_mode: Option<u32>,
        nerf: bool,
        rm: bool,
        target_exists: bool,
    ) -> (r: Result<Outcome, TmpError>)
        ensures
            match r {
                Ok(o) => exists|i: int|
                    0 <= i < self.kinds@.len() && (#[trigger] self.kinds@[i]).name@ == kind_name@
                        && outcome_matches(
                        self.kinds@[i],
                        hint_view(hint),
                        override_mode,
                        nerf,
                        rm,
                        target_exists,
                        o,
                    ) && (forall|j: int|
                        0 <= j < i ==> (#[trigger] self.kinds@[j]).name@ != kind_name@),
                Err(e) => {
                    &&& forall|i: int|
                        0 <= i < self.kinds@.len() ==> (#[trigger] self.kinds@[i]).name@
                            != kind_name@
                    &&& (e matches TmpError::UnknownKind { name } && name@ == kind_name@)
                },
            },
    {
        match self.find_kind(kind_name) {
            Some(k) => Ok(plan(k, hint, override_mode, nerf, rm, target_exists)),
            None => Err(TmpError::UnknownKind { name: String::from_str(kind_name) }),
        }
    }
}

} // verus!
