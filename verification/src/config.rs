//! The part of the configuration that bindings are decided by.

use vstd::prelude::*;

use crate::text;
use crate::text::contains_text;
use crate::topology::CpuTopology;

verus! {

/// The configuration.
pub struct AppConfig {
    /// The machine.
    pub topo: CpuTopology,
    /// Packages that a rule names, each once.
    pub pkg_set: Vec<String>,
    /// Those of them that have rules for single threads.
    pub thread_rule_pkgs: Vec<String>,
    /// Whether threads of background processes are moved to slow CPUs.
    pub foreground_aware: bool,
    /// Whether threads are moved as their load changes.
    pub load_aware: bool,
}

/// `names` without repetitions, the first of each kept.
fn distinct(names: &Vec<String>) -> (out: Vec<String>)
    ensures
        text::string_views(out@).no_duplicates(),
        forall|p: Seq<char>| #[trigger]
            text::string_views(out@).contains(p) <==> text::string_views(names@).contains(p),
{
    let ghost all = text::string_views(names@);
    let mut out: Vec<String> = Vec::new();
    for i in 0..names.len()
        invariant
            all == text::string_views(names@),
            text::string_views(out@).no_duplicates(),
            forall|p: Seq<char>| #[trigger]
                text::string_views(out@).contains(p) <==> all.take(i as int).contains(p),
    {
        let ghost before = text::string_views(out@);
        let ghost name = all[i as int];
        let known = contains_text(&out, names[i].as_str());
        if !known {
            out.push(names[i].clone());
            assert(text::string_views(out@) =~= before.push(name));
        }
        proof {
            let after = text::string_views(out@);
            assert(all.take(i + 1) =~= all.take(i as int).push(name));
            assert forall|p: Seq<char>| #[trigger]
                after.contains(p) <==> all.take(i + 1).contains(p) by {
                vstd::seq_lib::lemma_seq_contains_after_push(all.take(i as int), name, p);
                vstd::seq_lib::lemma_seq_contains_after_push(before, name, p);
            }
        }
    }
    assert(all.take(all.len() as int) =~= all);
    out
}

impl AppConfig {
    /// No package is listed twice.
    pub open spec fn wf(&self) -> bool {
        &&& text::string_views(self.pkg_set@).no_duplicates()
        &&& text::string_views(self.thread_rule_pkgs@).no_duplicates()
    }

    /// A configuration for the packages in `pkgs`, of which those in `rules` have
    /// rules for single threads. Repetitions are dropped.
    pub fn new(
        topo: CpuTopology,
        pkgs: &Vec<String>,
        rules: &Vec<String>,
        foreground_aware: bool,
        load_aware: bool,
    ) -> (cfg: AppConfig)
        ensures
            cfg.wf(),
            cfg.topo == topo,
            cfg.foreground_aware == foreground_aware,
            cfg.load_aware == load_aware,
            forall|p: Seq<char>| #[trigger]
                cfg.pkgs().contains(p) <==> text::string_views(pkgs@).contains(p),
            forall|p: Seq<char>| #[trigger]
                cfg.has_thread_rules(p) <==> text::string_views(rules@).contains(p),
    {
        AppConfig {
            topo,
            pkg_set: distinct(pkgs),
            thread_rule_pkgs: distinct(rules),
            foreground_aware,
            load_aware,
        }
    }

    /// The packages that a rule names.
    pub open spec fn pkgs(&self) -> Seq<Seq<char>> {
        text::string_views(self.pkg_set@)
    }

    /// Whether `pkg` has rules for single threads.
    pub open spec fn has_thread_rules(&self, pkg: Seq<char>) -> bool {
        text::string_views(self.thread_rule_pkgs@).contains(pkg)
    }

    /// Whether `pkg` has rules for single threads.
    pub fn pkg_has_thread_rules(&self, pkg: &str) -> (b: bool)
        ensures
            b == self.has_thread_rules(pkg@),
    {
        contains_text(&self.thread_rule_pkgs, pkg)
    }
}

/// A configuration lists exactly the packages that it is made of, each once, and so for
/// those with thread rules.
pub proof fn law_configurations_list_their_packages(
    topo: CpuTopology,
    pkgs: &Vec<String>,
    rules: &Vec<String>,
    foreground_aware: bool,
    load_aware: bool,
    cfg: AppConfig,
    p: Seq<char>,
    listed: bool,
    name: &str,
)
    requires
        call_ensures(AppConfig::new, (topo, pkgs, rules, foreground_aware, load_aware), cfg),
        call_ensures(AppConfig::pkg_has_thread_rules, (&cfg, name), listed),
    ensures
        (exists|i: int| 0 <= i < cfg.pkg_set@.len() && (#[trigger] cfg.pkg_set@[i])@ == p)
            <==> exists|i: int| 0 <= i < pkgs@.len() && (#[trigger] pkgs@[i])@ == p,
        listed <==> exists|i: int| 0 <= i < rules@.len() && (#[trigger] rules@[i])@ == name@,
        forall|i: int, j: int|
            0 <= i < j < cfg.pkg_set@.len() ==> (#[trigger] cfg.pkg_set@[i])@ != (
            #[trigger] cfg.pkg_set@[j])@,
        cfg.topo == topo && cfg.foreground_aware == foreground_aware && cfg.load_aware
            == load_aware,
{
    lemma_listed(cfg.pkg_set@, p);
    lemma_listed(pkgs@, p);
    lemma_listed(rules@, name@);
    assert(cfg.pkgs().contains(p) <==> text::string_views(pkgs@).contains(p));
    assert(cfg.has_thread_rules(name@) <==> text::string_views(rules@).contains(name@));
    let v = text::string_views(cfg.pkg_set@);
    assert forall|i: int, j: int| 0 <= i < j < cfg.pkg_set@.len() implies (
    #[trigger] cfg.pkg_set@[i])@ != (#[trigger] cfg.pkg_set@[j])@ by {
        assert(v[i] == cfg.pkg_set@[i]@ && v[j] == cfg.pkg_set@[j]@);
    }
}

/// A name is in what a list holds exactly where one of its strings is that name.
proof fn lemma_listed(names: Seq<String>, p: Seq<char>)
    ensures
        text::string_views(names).contains(p) <==> exists|i: int|
            0 <= i < names.len() && (#[trigger] names[i])@ == p,
{
    let v = text::string_views(names);
    if v.contains(p) {
        let i = v.index_of(p);
        assert(v[i] == p);
        assert(names[i]@ == p);
    }
    if exists|i: int| 0 <= i < names.len() && (#[trigger] names[i])@ == p {
        let i = choose|i: int| 0 <= i < names.len() && (#[trigger] names[i])@ == p;
        assert(v[i] == p);
    }
}

} // verus!
