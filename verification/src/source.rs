//! Monitored sources: identity and display-label disambiguation.
//!
//! A source is one repository/branch/workflow combination. When several
//! registered sources share a repository name, their display labels append the
//! workflow and, when it is explicit, the branch; a unique name renders bare.

use vstd::prelude::*;
use vstd::string::StringExecFns;

verus! {

/// Which kind of provider a source is polled from. A continuous-testing feed
/// carries no workflow or branch of its own, so its label is always the bare
/// repository name.
pub enum Provider {
    CcTray,
    CircleCi { workflow: String, branch: Option<String> },
}

/// One monitored source. Identity is the repository name plus the provider
/// data; `refresh_interval` (in ticks) only schedules it.
pub struct Source {
    pub name: String,
    pub provider: Provider,
    pub refresh_interval: u64,
}

/// How many of the first `k` sources carry the repository name `name`.
pub open spec fn name_count(sources: Seq<Source>, name: Seq<char>, k: int) -> int
    decreases k,
{
    if k <= 0 {
        0
    } else {
        name_count(sources, name, k - 1) + if sources[k - 1].name@ == name {
            1int
        } else {
            0int
        }
    }
}

/// The display label of source `i`: the bare repository name when that name is
/// unique in the registry, otherwise the name disambiguated by workflow, then
/// branch (an explicit branch only).
pub open spec fn label_of(sources: Seq<Source>, i: int) -> Seq<char> {
    let s = sources[i];
    if name_count(sources, s.name@, sources.len() as int) == 1 {
        s.name@
    } else {
        match s.provider {
            Provider::CcTray => s.name@,
            Provider::CircleCi { workflow, branch } => match branch {
                None => s.name@ + " ("@ + workflow@ + ")"@,
                Some(b) => s.name@ + " ("@ + workflow@ + " on "@ + b@ + ")"@,
            },
        }
    }
}

/// Render the display label of source `i` within its registry.
pub fn display_label(sources: &Vec<Source>, i: usize) -> (r: String)
    requires
        i < sources@.len(),
    ensures
        r@ == label_of(sources@, i as int),
{
    let name: &String = &sources[i].name;
    let mut count: usize = 0;
    let mut k: usize = 0;
    while k < sources.len()
        invariant
            i < sources@.len(),
            name == sources@[i as int].name,
            k <= sources@.len(),
            count == name_count(sources@, name@, k as int),
            count <= k,
        decreases sources@.len() - k,
    {
        if sources[k].name == *name {
            count = count + 1;
        }
        k = k + 1;
    }
    if count == 1 {
        name.clone()
    } else {
        match &sources[i].provider {
            Provider::CcTray => name.clone(),
            Provider::CircleCi { workflow, branch } => {
                let mut r = name.clone();
                r.append(" (");
                r.append(workflow.as_str());
                match branch {
                    None => {
                        r.append(")");
                    },
                    Some(b) => {
                        r.append(" on ");
                        r.append(b.as_str());
                        r.append(")");
                    },
                }
                r
            },
        }
    }
}

} // verus!
