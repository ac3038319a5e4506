//! What every scan of an agent keeps: the order of the kinds, and what does not
//! depend on when it runs.

use vstd::prelude::*;

use crate::agents::AgentView;
use crate::files::FileTreeView;
use crate::managed;
use crate::models::{ConfigScopeView, ExtensionKind, ExtensionView, Timestamp};
use crate::scanner;
use crate::skills;

verus! {

/// Whether all extensions of a list are of one kind.
pub open spec fn all_of_kind(list: Seq<ExtensionView>, kind: ExtensionKind) -> bool {
    forall|i: int| 0 <= i < list.len() ==> (#[trigger] list[i]).kind == kind
}

/// The hooks of an agent that belong to no project.
pub open spec fn global_hooks(fs: FileTreeView, agent: AgentView, now: Timestamp) -> Seq<
    ExtensionView,
> {
    scanner::hooks_in_files(
        fs,
        agent,
        agent.hook_configs_in(ConfigScopeView::Global),
        ConfigScopeView::Global,
        false,
        now,
    )
}

/// The files of an agent that belong to no project, as extensions of a kind.
pub open spec fn global_files(
    fs: FileTreeView,
    agent: AgentView,
    paths: Seq<Seq<char>>,
    kind: ExtensionKind,
    now: Timestamp,
) -> Seq<ExtensionView> {
    managed::managed_all(fs, paths, agent.name, kind, ConfigScopeView::Global, now)
}

/// A scan of an agent goes kind by kind: first what a scan of its skills alone
/// finds, next its servers, its hooks and its plugins, then all subagents, and last
/// all commands.
pub proof fn agent_scan_goes_kind_by_kind(fs: FileTreeView, agent: AgentView, now: Timestamp)
    ensures
        ({
            let a = skills::skills_in_all(fs, agent.skill_dirs, agent.name, now);
            let b = scanner::mcp_exts(fs, agent, now);
            let c = global_hooks(fs, agent, now);
            let d = scanner::plugin_exts(fs, agent, now);
            let e = global_files(fs, agent, agent.subagent_files, ExtensionKind::Subagent, now);
            let f = global_files(fs, agent, agent.command_files, ExtensionKind::Command, now);
            &&& scanner::agent_exts(fs, agent, now) == a + b + c + d + e + f
            &&& all_of_kind(a, ExtensionKind::Skill)
            &&& all_of_kind(b, ExtensionKind::Mcp)
            &&& all_of_kind(c, ExtensionKind::Hook)
            &&& all_of_kind(d, ExtensionKind::Plugin)
            &&& all_of_kind(e, ExtensionKind::Subagent)
            &&& all_of_kind(f, ExtensionKind::Command)
        }),
{
    lemma_skills_in_all(fs, agent.skill_dirs, agent.name, now, now);
    lemma_hooks(fs, agent, agent.hook_configs_in(ConfigScopeView::Global), now, now);
    lemma_files(fs, agent, agent.subagent_files, ExtensionKind::Subagent, now, now);
    lemma_files(fs, agent, agent.command_files, ExtensionKind::Command, now, now);
}

/// Whether two lists hold the same extensions in the same order, by their
/// identifiers, kinds and names and by whether they are enabled.
pub open spec fn are_same(a: Seq<ExtensionView>, b: Seq<ExtensionView>) -> bool {
    &&& a.len() == b.len()
    &&& forall|i: int|
        0 <= i < a.len() ==> (#[trigger] a[i]).id == b[i].id && a[i].kind == b[i].kind && a[i].name
            == b[i].name && a[i].enabled == b[i].enabled
}

/// When a scan of an agent runs makes no difference to which extensions it finds,
/// their order, their identifiers, kinds and names and whether they are enabled.
pub proof fn time_changes_no_identity(
    fs: FileTreeView,
    agent: AgentView,
    then: Timestamp,
    now: Timestamp,
)
    ensures
        are_same(scanner::agent_exts(fs, agent, then), scanner::agent_exts(fs, agent, now)),
{
    let a1 = skills::skills_in_all(fs, agent.skill_dirs, agent.name, then);
    let a2 = skills::skills_in_all(fs, agent.skill_dirs, agent.name, now);
    lemma_skills_in_all(fs, agent.skill_dirs, agent.name, then, now);
    let b1 = scanner::mcp_exts(fs, agent, then);
    let b2 = scanner::mcp_exts(fs, agent, now);
    lemma_same_sum(a1, b1, a2, b2);
    let c1 = global_hooks(fs, agent, then);
    let c2 = global_hooks(fs, agent, now);
    lemma_hooks(fs, agent, agent.hook_configs_in(ConfigScopeView::Global), then, now);
    lemma_same_sum(a1 + b1, c1, a2 + b2, c2);
    let d1 = scanner::plugin_exts(fs, agent, then);
    let d2 = scanner::plugin_exts(fs, agent, now);
    lemma_same_sum(a1 + b1 + c1, d1, a2 + b2 + c2, d2);
    let e1 = global_files(fs, agent, agent.subagent_files, ExtensionKind::Subagent, then);
    let e2 = global_files(fs, agent, agent.subagent_files, ExtensionKind::Subagent, now);
    lemma_files(fs, agent, agent.subagent_files, ExtensionKind::Subagent, then, now);
    lemma_same_sum(a1 + b1 + c1 + d1, e1, a2 + b2 + c2 + d2, e2);
    let f1 = global_files(fs, agent, agent.command_files, ExtensionKind::Command, then);
    let f2 = global_files(fs, agent, agent.command_files, ExtensionKind::Command, now);
    lemma_files(fs, agent, agent.command_files, ExtensionKind::Command, then, now);
    lemma_same_sum(a1 + b1 + c1 + d1 + e1, f1, a2 + b2 + c2 + d2 + e2, f2);
}

proof fn lemma_same_sum(
    a: Seq<ExtensionView>,
    b: Seq<ExtensionView>,
    c: Seq<ExtensionView>,
    d: Seq<ExtensionView>,
)
    requires
        are_same(a, c),
        are_same(b, d),
    ensures
        are_same(a + b, c + d),
{
}

proof fn lemma_kind_sum(a: Seq<ExtensionView>, b: Seq<ExtensionView>, kind: ExtensionKind)
    requires
        all_of_kind(a, kind),
        all_of_kind(b, kind),
    ensures
        all_of_kind(a + b, kind),
{
}

proof fn lemma_skills_at(
    fs: FileTreeView,
    paths: Seq<Seq<char>>,
    agent: Seq<char>,
    then: Timestamp,
    now: Timestamp,
)
    ensures
        all_of_kind(skills::skills_at(fs, paths, agent, now), ExtensionKind::Skill),
        are_same(
            skills::skills_at(fs, paths, agent, then),
            skills::skills_at(fs, paths, agent, now),
        ),
    decreases paths.len(),
{
    if paths.len() > 0 {
        lemma_skills_at(fs, paths.drop_last(), agent, then, now);
    }
}

proof fn lemma_skills_in_all(
    fs: FileTreeView,
    dirs: Seq<Seq<char>>,
    agent: Seq<char>,
    then: Timestamp,
    now: Timestamp,
)
    ensures
        all_of_kind(skills::skills_in_all(fs, dirs, agent, now), ExtensionKind::Skill),
        are_same(
            skills::skills_in_all(fs, dirs, agent, then),
            skills::skills_in_all(fs, dirs, agent, now),
        ),
    decreases dirs.len(),
{
    if dirs.len() > 0 {
        lemma_skills_in_all(fs, dirs.drop_last(), agent, then, now);
        if let Some(entries) = fs.at(dirs.last()).children {
            lemma_skills_at(fs, entries, agent, then, now);
        }
        let before = skills::skills_in_all(fs, dirs.drop_last(), agent, now);
        let here = skills::skills_in(fs, dirs.last(), agent, now);
        lemma_kind_sum(before, here, ExtensionKind::Skill);
        lemma_same_sum(
            skills::skills_in_all(fs, dirs.drop_last(), agent, then),
            skills::skills_in(fs, dirs.last(), agent, then),
            before,
            here,
        );
    }
}

proof fn lemma_hooks(
    fs: FileTreeView,
    agent: AgentView,
    paths: Seq<Seq<char>>,
    then: Timestamp,
    now: Timestamp,
)
    ensures
        ({
            let g = ConfigScopeView::Global;
            let a = scanner::hooks_in_files(fs, agent, paths, g, false, then);
            let b = scanner::hooks_in_files(fs, agent, paths, g, false, now);
            all_of_kind(b, ExtensionKind::Hook) && are_same(a, b)
        }),
    decreases paths.len(),
{
    if paths.len() > 0 {
        let g = ConfigScopeView::Global;
        lemma_hooks(fs, agent, paths.drop_last(), then, now);
        let before = scanner::hooks_in_files(fs, agent, paths.drop_last(), g, false, now);
        let here = scanner::hooks_in_file(fs, agent, paths.last(), g, now);
        lemma_kind_sum(before, here, ExtensionKind::Hook);
        lemma_same_sum(
            scanner::hooks_in_files(fs, agent, paths.drop_last(), g, false, then),
            scanner::hooks_in_file(fs, agent, paths.last(), g, then),
            before,
            here,
        );
    }
}

proof fn lemma_files(
    fs: FileTreeView,
    agent: AgentView,
    paths: Seq<Seq<char>>,
    kind: ExtensionKind,
    then: Timestamp,
    now: Timestamp,
)
    ensures
        all_of_kind(global_files(fs, agent, paths, kind, now), kind),
        are_same(
            global_files(fs, agent, paths, kind, then),
            global_files(fs, agent, paths, kind, now),
        ),
    decreases paths.len(),
{
    if paths.len() > 0 {
        lemma_files(fs, agent, paths.drop_last(), kind, then, now);
    }
}

} // verus!
