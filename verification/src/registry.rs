//! The kind registry: template resolution over the configured kinds, and
//! lookup by exact name. Resolution walks the template table once per
//! kind, in table order, replacing each `{name}` token by its body in a
//! single non-recursive pass.

use vstd::prelude::*;
use crate::config::{Config, Kind};
use crate::text::{
    chars_disjoint, contains_seq, lemma_replaced_identity, lemma_replaced_no_pattern,
    lemma_replaced_preserves_absence, replace_all, spec_replaced, str_eq,
};

verus! {

/// The placeholder token a template name stands for inside kind content.
pub open spec fn placeholder(name: Seq<char>) -> Seq<char> {
    seq!['{'] + name + seq!['}']
}

/// The character views of a template table.
pub open spec fn template_views(ts: Seq<(String, String)>) -> Seq<(Seq<char>, Seq<char>)> {
    ts.map_values(|t: (String, String)| (t.0@, t.1@))
}

/// Sequential single-pass resolution of the template table against a
/// content string, front to back.
pub open spec fn spec_resolve(content: Seq<char>, ts: Seq<(Seq<char>, Seq<char>)>) -> Seq<char>
    decreases ts.len(),
{
    if ts.len() == 0 {
        content
    } else {
        spec_resolve(spec_replaced(content, placeholder(ts[0].0), ts[0].1), ts.skip(1))
    }
}

/// Content that contains no placeholder of the table is left unchanged by
/// resolution: unrecognized placeholders survive as literal text.
pub proof fn lemma_resolve_untouched(c: Seq<char>, ts: Seq<(Seq<char>, Seq<char>)>)
    requires
        forall|k: int| 0 <= k < ts.len() ==> !contains_seq(c, placeholder(#[trigger] ts[k].0)),
    ensures
        spec_resolve(c, ts) == c,
    decreases ts.len(),
{
    if ts.len() == 0 {
    } else {
        lemma_replaced_identity(c, placeholder(ts[0].0), ts[0].1);
        assert(forall|k: int|
            0 <= k < ts.skip(1).len() ==> ts.skip(1)[k] == ts[k + 1]);
        lemma_resolve_untouched(c, ts.skip(1));
    }
}

/// Resolution cannot introduce an occurrence of `p` into content that had
/// none, provided every template body is nonempty and shares no character
/// with `p`.
pub proof fn lemma_resolve_preserves_absence(
    c: Seq<char>,
    ts: Seq<(Seq<char>, Seq<char>)>,
    p: Seq<char>,
)
    requires
        p.len() >= 1,
        !contains_seq(c, p),
        forall|k: int|
            0 <= k < ts.len() ==> (#[trigger] ts[k].1).len() >= 1 && chars_disjoint(ts[k].1, p),
    ensures
        !contains_seq(spec_resolve(c, ts), p),
    decreases ts.len(),
{
    if ts.len() == 0 {
    } else {
        let c1 = spec_replaced(c, placeholder(ts[0].0), ts[0].1);
        lemma_replaced_preserves_absence(c, placeholder(ts[0].0), ts[0].1, p);
        assert(forall|k: int|
            0 <= k < ts.skip(1).len() ==> ts.skip(1)[k] == ts[k + 1]);
        lemma_resolve_preserves_absence(c1, ts.skip(1), p);
    }
}

/// Resolution removes every occurrence of every placeholder of the table,
/// provided each template body is nonempty and shares no character with
/// any placeholder token of the table.
pub proof fn lemma_resolution_removes_placeholders(
    c: Seq<char>,
    ts: Seq<(Seq<char>, Seq<char>)>,
    l: int,
)
    requires
        0 <= l < ts.len(),
        forall|k: int| 0 <= k < ts.len() ==> (#[trigger] ts[k].1).len() >= 1,
        forall|k: int, j: int|
            0 <= k < ts.len() && 0 <= j < ts.len() ==> chars_disjoint(
                #[trigger] ts[k].1,
                placeholder(#[trigger] ts[j].0),
            ),
    ensures
        !contains_seq(spec_resolve(c, ts), placeholder(ts[l].0)),
    decreases ts.len(),
{
    let c1 = spec_replaced(c, placeholder(ts[0].0), ts[0].1);
    assert(forall|k: int|
        0 <= k < ts.skip(1).len() ==> ts.skip(1)[k] == ts[k + 1]);
    if l == 0 {
        lemma_replaced_no_pattern(c, placeholder(ts[0].0), ts[0].1);
        lemma_resolve_preserves_absence(c1, ts.skip(1), placeholder(ts[0].0));
    } else {
        lemma_resolution_removes_placeholders(c1, ts.skip(1), l - 1);
    }
}

/// Expand every template of the table in the given content, in table
/// order, one single non-recursive pass per template.
pub fn resolve_content(content: &str, templates: &Vec<(String, String)>) -> (r: String)
    ensures
        r@ == spec_resolve(content@, template_views(templates@)),
{
    let ghost tv = template_views(templates@);
    let mut cur = String::from_str(content);
    let mut j: usize = 0;
    proof {
        assert(tv.skip(0) =~= tv);
    }
    while j < templates.len()
        invariant
            j <= templates@.len(),
            tv == template_views(templates@),
            spec_resolve(content@, tv) == spec_resolve(cur@, tv.skip(j as int)),
        decreases templates@.len() - j,
    {
        let pat = String::from_str("{").concat(templates[j].0.as_str()).concat("}");
        proof {
            reveal_strlit("{");
            reveal_strlit("}");
            assert(pat@ =~= placeholder(templates@[j as int].0@));
            assert(tv.skip(j as int)[0] == tv[j as int]);
            assert(tv.skip(j as int).skip(1) =~= tv.skip(j + 1));
        }
        let next = replace_all(cur.as_str(), pat.as_str(), templates[j].1.as_str());
        cur = next;
        j = j + 1;
    }
    proof {
        assert(tv.skip(templates@.len() as int) =~= Seq::<(Seq<char>, Seq<char>)>::empty());
    }
    cur
}

/// The index of the first kind with the given name, if any.
pub open spec fn spec_find_kind(kinds: Seq<Kind>, name: Seq<char>) -> Option<int>
    decreases kinds.len(),
{
    if kinds.len() == 0 {
        None
    } else if kinds[0].name@ == name {
        Some(0)
    } else {
        match spec_find_kind(kinds.skip(1), name) {
            None => None,
            Some(i) => Some(i + 1),
        }
    }
}

/// The registry of resolved kinds, immutable for the lifetime of one
/// invocation.
#[derive(Debug)]
pub struct Tmp {
    pub kinds: Vec<Kind>,
}

impl Tmp {
    /// Build the registry from a configuration: every kind keeps its name,
    /// suffix, and mode, and its content has the template table resolved
    /// into it.
    pub fn new(config: Config) -> (t: Tmp)
        ensures
            t.kinds@.len() == config.kinds@.len(),
            forall|i: int|
                0 <= i < config.kinds@.len() ==> {
                    &&& (#[trigger] t.kinds@[i]).name@ == config.kinds@[i].name@
                    &&& t.kinds@[i].suffix@ == config.kinds@[i].suffix@
                    &&& t.kinds@[i].chmod == config.kinds@[i].chmod
                    &&& t.kinds@[i].content@ == spec_resolve(
                        config.kinds@[i].content@,
                        template_views(config.templates@),
                    )
                },
    {
        let mut out: Vec<Kind> = Vec::new();
        let mut idx: usize = 0;
        while idx < config.kinds.len()
            invariant
                idx <= config.kinds@.len(),
                out@.len() == idx,
                forall|i: int|
                    0 <= i < idx ==> {
                        &&& (#[trigger] out@[i]).name@ == config.kinds@[i].name@
                        &&& out@[i].suffix@ == config.kinds@[i].suffix@
                        &&& out@[i].chmod == config.kinds@[i].chmod
                        &&& out@[i].content@ == spec_resolve(
                            config.kinds@[i].content@,
                            template_views(config.templates@),
                        )
                    },
            decreases config.kinds@.len() - idx,
        {
            let k = &config.kinds[idx];
            let content = resolve_content(k.content.as_str(), &config.templates);
            out.push(
                Kind { name: k.name.clone(), chmod: k.chmod, suffix: k.suffix.clone(), content },
            );
            idx = idx + 1;
        }
        Tmp { kinds: out }
    }

    /// Look up a kind by exact name; the first declaration with that name
    /// wins.
    pub fn find_kind(&self, name: &str) -> (r: Option<&Kind>)
        ensures
            match r {
                Some(k) => {
                    &&& exists|i: int|
                        0 <= i < self.kinds@.len() && *k == self.kinds@[i] && (forall|j: int|
                            0 <= j < i ==> (#[trigger] self.kinds@[j]).name@ != name@)
                    &&& k.name@ == name@
                },
                None => forall|i: int|
                    0 <= i < self.kinds@.len() ==> (#[trigger] self.kinds@[i]).name@ != name@,
            },
    {
        let mut idx: usize = 0;
        while idx < self.kinds.len()
            invariant
                idx <= self.kinds@.len(),
                forall|j: int| 0 <= j < idx ==> (#[trigger] self.kinds@[j]).name@ != name@,
            decreases self.kinds@.len() - idx,
        {
            if str_eq(self.kinds[idx].name.as_str(), name) {
                return Some(&self.kinds[idx]);
            }
            idx = idx + 1;
        }
        None
    }

    /// The declared kind names, in registry order, for help output.
    pub fn list_kinds(&self) -> (names: Vec<String>)
        ensures
            names@.len() == self.kinds@.len(),
            forall|i: int|
                0 <= i < self.kinds@.len() ==> (#[trigger] names@[i])@ == self.kinds@[i].name@,
    {
        let mut names: Vec<String> = Vec::new();
        let mut idx: usize = 0;
        while idx < self.kinds.len()
            invariant
                idx <= self.kinds@.len(),
                names@.len() == idx,
                forall|i: int| 0 <= i < idx ==> (#[trigger] names@[i])@ == self.kinds@[i].name@,
            decreases self.kinds@.len() - idx,
        {
            names.push(self.kinds[idx].name.clone());
            idx = idx + 1;
        }
        names
    }
}

} // verus!
