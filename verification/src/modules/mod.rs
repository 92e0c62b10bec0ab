pub mod rewrite;
pub mod gzip;
pub mod static_files;
pub mod cache;
pub mod proxy;
pub mod security;

use vstd::prelude::*;
use crate::config::ModuleConfig;
use crate::text::{chars_eq, chars_of};

verus! {

/// The modules the server knows.
#[derive(Clone, Copy, Debug, PartialEq, Eq, Structural)]
pub enum ModuleKind {
    StaticFiles,
    Gzip,
    Cache,
    Rewrite,
    Proxy,
    Security,
}

/// One step of loading the modules.
#[derive(Clone, Copy, Debug, PartialEq, Eq, Structural)]
pub enum ModulePlan {
    /// A module that is always there.
    Builtin(ModuleKind),
    /// The configured module at this index, of this kind.
    Configured(ModuleKind, usize),
    /// The configured module at this index has a name the server does not know.
    Unknown(usize),
}

/// The kind a configured module's name names.
pub open spec fn spec_module_kind(name: Seq<char>) -> Option<ModuleKind> {
    if name == "cache"@ {
        Some(ModuleKind::Cache)
    } else if name == "rewrite"@ {
        Some(ModuleKind::Rewrite)
    } else if name == "proxy"@ {
        Some(ModuleKind::Proxy)
    } else if name == "security"@ {
        Some(ModuleKind::Security)
    } else {
        None
    }
}

/// The kind of a configured module's name.
pub fn module_kind(name: &str) -> (res: Option<ModuleKind>)
    ensures
        res == spec_module_kind(name@),
{
    let n = chars_of(name);
    if chars_eq(&n, &chars_of("cache")) {
        Some(ModuleKind::Cache)
    } else if chars_eq(&n, &chars_of("rewrite")) {
        Some(ModuleKind::Rewrite)
    } else if chars_eq(&n, &chars_of("proxy")) {
        Some(ModuleKind::Proxy)
    } else if chars_eq(&n, &chars_of("security")) {
        Some(ModuleKind::Security)
    } else {
        None
    }
}

/// The steps for the configured modules: each enabled one in order, by kind, or as unknown.
pub open spec fn configured_plan(configs: Seq<ModuleConfig>) -> Seq<ModulePlan>
    decreases configs.len(),
{
    if configs.len() == 0 {
        Seq::empty()
    } else {
        let before = configured_plan(configs.drop_last());
        let i = (configs.len() - 1) as usize;
        let c = configs.last();
        if !c.enabled {
            before
        } else {
            match spec_module_kind(c.name@) {
                Some(k) => before.push(ModulePlan::Configured(k, i)),
                None => before.push(ModulePlan::Unknown(i)),
            }
        }
    }
}

/// The steps of loading the modules: static files and gzip always, then the enabled configured
/// modules in order.
pub fn plan_modules(configs: &Vec<ModuleConfig>) -> (res: Vec<ModulePlan>)
    ensures
        res@ == seq![ModulePlan::Builtin(ModuleKind::StaticFiles), ModulePlan::Builtin(ModuleKind::Gzip)]
            + configured_plan(configs@),
{
    let mut plan: Vec<ModulePlan> = Vec::new();
    plan.push(ModulePlan::Builtin(ModuleKind::StaticFiles));
    plan.push(ModulePlan::Builtin(ModuleKind::Gzip));
    let ghost start = plan@;
    for i in 0..configs.len()
        invariant
            start == seq![ModulePlan::Builtin(ModuleKind::StaticFiles), ModulePlan::Builtin(ModuleKind::Gzip)],
            plan@ == start + configured_plan(configs@.take(i as int)),
    {
        assert(configs@.take(i + 1).drop_last() == configs@.take(i as int));
        assert(configs@.take(i + 1).last() == configs@[i as int]);
        if configs[i].enabled {
            match module_kind(configs[i].name.as_str()) {
                Some(k) => plan.push(ModulePlan::Configured(k, i)),
                None => plan.push(ModulePlan::Unknown(i)),
            }
        }
        assert(plan@ =~= start + configured_plan(configs@.take(i + 1)));
    }
    assert(configs@.take(configs@.len() as int) == configs@);
    plan
}

} // verus!
