//! What is shown of an extension: its text, and where it lies.

use vstd::prelude::*;

use crate::agents;
use crate::agents::{Agent, AgentView, McpFileView};
use crate::files::{FileTree, FileTreeView};
use crate::ids;
use crate::models;
use crate::models::{
    ConfigScopeView, Extension, ExtensionContent, ExtensionContentView, ExtensionKind,
    ExtensionView, HkError, HkErrorView, HookEntry, HookEntryView, McpServerEntry,
    McpServerEntryView, PluginEntry, PluginEntryView, SkillLocation, SkillLocationView,
};
use crate::path;
use crate::scanner;
use crate::service::audit;
use crate::service::lookup;
use crate::skills;
use crate::sources;
use crate::split;
use crate::store;
use crate::store::{Store, StoreView};
use crate::text;

verus! {

/// What is shown of an extension: something that is known, or a file that has to
/// be read.
#[derive(Debug)]
pub enum Reading {
    /// Nothing has to be read.
    Known(ExtensionContent),
    /// The text of a file is shown, with a path and the target of a link.
    File { file: String, path: String, symlink_target: Option<String> },
}

/// The mathematical value of a [`Reading`].
#[verifier::ext_equal]
pub enum ReadingView {
    Known(ExtensionContentView),
    File { file: Seq<char>, path: Seq<char>, symlink_target: Option<Seq<char>> },
}

impl View for Reading {
    type V = ReadingView;

    open spec fn view(&self) -> ReadingView {
        match self {
            Reading::Known(c) => ReadingView::Known(c@),
            Reading::File { file, path, symlink_target } => ReadingView::File {
                file: file@,
                path: path@,
                symlink_target: text::ostr(*symlink_target),
            },
        }
    }
}

/// The view of what is to be shown.
pub open spec fn reading_view(r: Result<Reading, HkError>) -> Result<ReadingView, HkErrorView> {
    match r {
        Ok(x) => Ok(x@),
        Err(e) => Err(e@),
    }
}

// ---------------------------------------------------------------------------
// Skills
// ---------------------------------------------------------------------------

/// The directory of a skill.
pub open spec fn dir_of_skill(fs: FileTreeView, loc: SkillLocationView) -> Seq<char> {
    if fs.at(loc.entry_path).is_dir {
        loc.entry_path
    } else {
        match path::parent_of(loc.skill_file) {
            Some(d) => d,
            None => Seq::<char>::empty(),
        }
    }
}

/// Where the link leads that a skill is reached by: the entry itself may be one, or
/// the directory that it lies in.
pub open spec fn link_of_skill(fs: FileTreeView, loc: SkillLocationView) -> Option<Seq<char>> {
    if fs.at(loc.entry_path).is_symlink {
        fs.at(loc.entry_path).link_target
    } else if fs.at(loc.skill_dir).is_symlink {
        match fs.at(loc.skill_dir).link_target {
            Some(d) => Some(path::extended(d, path::base_name(loc.entry_path))),
            None => None,
        }
    } else {
        None
    }
}

fn find_dir_of_skill(fs: &FileTree, loc: &SkillLocation) -> (r: String)
    ensures
        r@ == dir_of_skill(fs@, loc@),
{
    if fs.is_dir(&loc.entry_path) {
        loc.entry_path.clone()
    } else {
        match path::parent(&loc.skill_file) {
            Some(d) => d,
            None => String::new(),
        }
    }
}

fn find_link_of_skill(fs: &FileTree, loc: &SkillLocation) -> (r: Option<String>)
    ensures
        text::ostr(r) == link_of_skill(fs@, loc@),
{
    if fs.is_symlink(&loc.entry_path) {
        fs.read_link(&loc.entry_path)
    } else if fs.is_symlink(&loc.skill_dir) {
        match fs.read_link(&loc.skill_dir) {
            Some(d) => Some(path::join(&d, &path::file_name_or_empty(&loc.entry_path))),
            None => None,
        }
    } else {
        None
    }
}

// ---------------------------------------------------------------------------
// Servers and hooks
// ---------------------------------------------------------------------------

/// The lines for the variables of a server. Their values are not shown.
pub open spec fn env_lines(env: Seq<(Seq<char>, Seq<char>)>) -> Seq<Seq<char>> {
    env.map_values(|kv: (Seq<char>, Seq<char>)| "  "@ + kv.0 + " = ****"@)
}

/// The text that is shown of a server.
pub open spec fn server_text(s: McpServerEntryView) -> Seq<char> {
    let first = seq!["Command: "@ + s.command];
    let args = if s.args.len() == 0 {
        first
    } else {
        first.push("Args: "@ + split::joined(s.args, " "@))
    };
    let all = if s.env.len() == 0 {
        args
    } else {
        args.push("Environment:"@) + env_lines(s.env)
    };
    split::joined(all, "\n"@)
}

/// The text that is shown of a hook.
pub open spec fn hook_text(h: HookEntryView) -> Seq<char> {
    let first = seq!["Event: "@ + h.event];
    let matched = match h.matcher {
        Some(m) => first.push("Matcher: "@ + m),
        None => first,
    };
    split::joined(matched.push("Command: "@ + h.command), "\n"@)
}

/// A text with a path.
pub open spec fn shown(content: Seq<char>, path: Option<Seq<char>>) -> ExtensionContentView {
    ExtensionContentView { content, path, symlink_target: None }
}

/// A path, or another one where there is none.
pub open spec fn path_or(p: Option<Seq<char>>, q: Seq<char>) -> Option<Seq<char>> {
    match p {
        Some(x) => Some(x),
        None => Some(q),
    }
}

/// What is shown of a server: the entry of the first of its agents that lists it;
/// else its description, with the file that it was in or would be in.
pub open spec fn server_content(
    agents: Seq<AgentView>,
    e: ExtensionView,
    id: Seq<char>,
    fallback: Option<Seq<char>>,
) -> ExtensionContentView
    decreases agents.len(),
{
    if agents.len() == 0 {
        shown(e.description, fallback)
    } else if !e.agents.contains(agents[0].name) {
        server_content(agents.drop_first(), e, id, fallback)
    } else {
        match agents[0].mcp_config_in(e.scope) {
            None => server_content(agents.drop_first(), e, id, fallback),
            Some(p) => match lookup::server_at(agents[0], p, e.scope, id) {
                Some(s) => shown(server_text(s), Some(p)),
                None => server_content(agents.drop_first(), e, id, path_or(fallback, p)),
            },
        }
    }
}

/// What is shown of a hook, likewise.
pub open spec fn hook_content(
    agents: Seq<AgentView>,
    e: ExtensionView,
    id: Seq<char>,
    fallback: Option<Seq<char>>,
) -> ExtensionContentView
    decreases agents.len(),
{
    if agents.len() == 0 {
        shown(e.description, fallback)
    } else if !e.agents.contains(agents[0].name) {
        hook_content(agents.drop_first(), e, id, fallback)
    } else {
        match agents[0].hook_config_in(e.scope) {
            None => hook_content(agents.drop_first(), e, id, fallback),
            Some(p) => match lookup::hook_at(agents[0], p, e.scope, id) {
                Some(h) => shown(hook_text(h), Some(p)),
                None => hook_content(agents.drop_first(), e, id, path_or(fallback, p)),
            },
        }
    }
}

fn show_server(s: &McpServerEntry) -> (r: String)
    ensures
        r@ == server_text(s@),
{
    let mut lines: Vec<String> = Vec::new();
    lines.push(text::cat2("Command: ", &s.command));
    let ghost first = seq!["Command: "@ + s@.command];
    assert(text::strs(lines@) =~= first);
    if s.args.len() > 0 {
        lines.push(text::cat2("Args: ", &split::join(&s.args, " ")));
        assert(text::strs(lines@) =~= first.push("Args: "@ + split::joined(s@.args, " "@)));
    }
    let ghost args = text::strs(lines@);
    if s.env.len() > 0 {
        lines.push("Environment:".to_owned());
        let ghost head = args.push("Environment:"@);
        assert(text::strs(lines@) =~= head);
        let ghost env = env_lines(s@.env);
        let mut i: usize = 0;
        assert(head + env.take(0) =~= head);
        while i < s.env.len()
            invariant
                i <= s.env.len(),
                env == env_lines(s@.env),
                env.len() == s.env.len(),
                text::strs(lines@) == head + env.take(i as int),
            decreases s.env.len() - i,
        {
            let ghost before = lines@;
            lines.push(text::cat3("  ", &s.env[i].0, " = ****"));
            assert(s@.env[i as int].0 == s.env@[i as int].0@);
            assert(lines@.last()@ == env[i as int]);
            assert(env.take(i + 1) =~= env.take(i as int).push(env[i as int]));
            assert(text::strs(lines@) =~= text::strs(before).push(env[i as int]));
            assert(head + env.take(i + 1) =~= (head + env.take(i as int)).push(env[i as int]));
            i += 1;
        }
        assert(env.take(i as int) =~= env);
    }
    split::join(&lines, "\n")
}

fn show_hook(h: &HookEntry) -> (r: String)
    ensures
        r@ == hook_text(h@),
{
    let mut lines: Vec<String> = Vec::new();
    lines.push(text::cat2("Event: ", &h.event));
    let ghost first = seq!["Event: "@ + h@.event];
    assert(text::strs(lines@) =~= first);
    if let Some(m) = &h.matcher {
        lines.push(text::cat2("Matcher: ", m));
        assert(text::strs(lines@) =~= first.push("Matcher: "@ + m@));
    }
    let ghost matched = text::strs(lines@);
    lines.push(text::cat2("Command: ", &h.command));
    assert(text::strs(lines@) =~= matched.push("Command: "@ + h@.command));
    split::join(&lines, "\n")
}

fn show(content: String, path: Option<String>) -> (r: ExtensionContent)
    ensures
        r@ == shown(content@, text::ostr(path)),
{
    ExtensionContent { content, path, symlink_target: None }
}

fn find_server_content(agents: &Vec<Agent>, e: &Extension, id: &str) -> (r: ExtensionContent)
    ensures
        r@ == server_content(models::list_view(agents@), e@, id@, e@.source_path),
{
    let ghost v = models::list_view(agents@);
    let mut fallback = text::clone_opt(&e.source_path);
    let mut i: usize = 0;
    assert(v.skip(0) =~= v);
    while i < agents.len()
        invariant
            v == models::list_view(agents@),
            i <= agents.len(),
            server_content(v.skip(i as int), e@, id@, text::ostr(fallback)) == server_content(
                v,
                e@,
                id@,
                e@.source_path,
            ),
        decreases agents.len() - i,
    {
        assert(v.skip(i as int)[0] == agents@[i as int]@);
        assert(v.skip(i as int).drop_first() =~= v.skip(i + 1));
        if text::list_has(&e.agents, &agents[i].name) {
            if let Some(p) = agents[i].mcp_config_path_for(&e.scope) {
                if let Some(s) = lookup::find_server_at(&agents[i], &p, &e.scope, id) {
                    return show(show_server(&s), Some(p));
                }
                if fallback.is_none() {
                    fallback = Some(p);
                }
            }
        }
        i += 1;
    }
    show(e.description.clone(), fallback)
}

fn find_hook_content(agents: &Vec<Agent>, e: &Extension, id: &str) -> (r: ExtensionContent)
    ensures
        r@ == hook_content(models::list_view(agents@), e@, id@, e@.source_path),
{
    let ghost v = models::list_view(agents@);
    let mut fallback = text::clone_opt(&e.source_path);
    let mut i: usize = 0;
    assert(v.skip(0) =~= v);
    while i < agents.len()
        invariant
            v == models::list_view(agents@),
            i <= agents.len(),
            hook_content(v.skip(i as int), e@, id@, text::ostr(fallback)) == hook_content(
                v,
                e@,
                id@,
                e@.source_path,
            ),
        decreases agents.len() - i,
    {
        assert(v.skip(i as int)[0] == agents@[i as int]@);
        assert(v.skip(i as int).drop_first() =~= v.skip(i + 1));
        if text::list_has(&e.agents, &agents[i].name) {
            if let Some(p) = agents[i].hook_config_path_for(&e.scope) {
                if let Some(h) = lookup::find_hook_at(&agents[i], &p, &e.scope, id) {
                    return show(show_hook(&h), Some(p));
                }
                if fallback.is_none() {
                    fallback = Some(p);
                }
            }
        }
        i += 1;
    }
    show(e.description.clone(), fallback)
}

// ---------------------------------------------------------------------------
// Plugins
// ---------------------------------------------------------------------------

/// The text of the file in a directory that introduces what is there.
pub open spec fn readme_in(fs: FileTreeView, dir: Seq<char>) -> Option<Seq<char>> {
    match fs.at(path::extended(dir, "README.md"@)).content {
        Some(c) => Some(c),
        None => fs.at(path::extended(dir, "readme.md"@)).content,
    }
}

/// The introduction of the repository above `p`.
pub open spec fn readme_above(fs: FileTreeView, p: Seq<char>) -> Option<Seq<char>> {
    match path::parent_of(p) {
        None => None,
        Some(q) => match sources::repository_of(fs, q) {
            None => None,
            Some(dir) => readme_in(fs, dir),
        },
    }
}

/// What is shown of the plugin at `p`: its text, where it is a file; else the
/// introduction in its directory, else that of the repository around it.
pub open spec fn plugin_detail(
    fs: FileTreeView,
    p: Seq<char>,
    fallback: Seq<char>,
) -> Seq<char> {
    let found = if fs.at(p).is_file {
        fs.at(p).content
    } else {
        match readme_in(fs, p) {
            Some(c) => Some(c),
            None => readme_above(fs, p),
        }
    };
    match found {
        Some(c) => c,
        None => fallback,
    }
}

fn find_readme_in(fs: &FileTree, dir: &str) -> (r: Option<String>)
    ensures
        text::ostr(r) == readme_in(fs@, dir@),
{
    match fs.read(&path::join(dir, "README.md")) {
        Some(c) => Some(c),
        None => fs.read(&path::join(dir, "readme.md")),
    }
}

/// What is shown of the plugin at `p`.
pub fn read_plugin_detail(fs: &FileTree, p: &str, fallback: &str) -> (r: String)
    ensures
        r@ == plugin_detail(fs@, p@, fallback@),
{
    let found = if fs.is_file(p) {
        fs.read(p)
    } else {
        match find_readme_in(fs, p) {
            Some(c) => Some(c),
            None => match path::parent(p) {
                None => None,
                Some(q) => match sources::find_repository(fs, &q) {
                    None => None,
                    Some(dir) => find_readme_in(fs, &dir),
                },
            },
        }
    };
    match found {
        Some(c) => c,
        None => fallback.to_owned(),
    }
}

/// Whether a plugin has an identifier.
pub open spec fn is_plugin(p: PluginEntryView, agent: Seq<char>, id: Seq<char>) -> bool {
    ids::global_id(scanner::plugin_key(p), "plugin"@, agent) == id
}

/// The first plugin with an identifier.
pub open spec fn plugin_in(
    plugins: Seq<PluginEntryView>,
    agent: Seq<char>,
    id: Seq<char>,
) -> Option<PluginEntryView>
    decreases plugins.len(),
{
    if plugins.len() == 0 {
        None
    } else if is_plugin(plugins[0], agent, id) {
        Some(plugins[0])
    } else {
        plugin_in(plugins.drop_first(), agent, id)
    }
}

/// The plugin that an extension stands for: the one of the first of its agents
/// that has it.
pub open spec fn plugin_of(
    agents: Seq<AgentView>,
    names: Seq<Seq<char>>,
    id: Seq<char>,
) -> Option<PluginEntryView>
    decreases agents.len(),
{
    if agents.len() == 0 {
        None
    } else {
        let here = if names.contains(agents[0].name) {
            plugin_in(agents[0].plugins, agents[0].name, id)
        } else {
            None
        };
        match here {
            Some(p) => Some(p),
            None => plugin_of(agents.drop_first(), names, id),
        }
    }
}

/// What is shown of a plugin.
pub open spec fn plugin_content(
    fs: FileTreeView,
    agents: Seq<AgentView>,
    e: ExtensionView,
    id: Seq<char>,
) -> ExtensionContentView {
    match plugin_of(agents, e.agents, id) {
        None => shown(e.description, None),
        Some(p) => shown(
            match p.path {
                Some(q) => plugin_detail(fs, q, e.description),
                None => e.description,
            },
            p.path,
        ),
    }
}

/// Whether a plugin has an identifier.
pub fn has_plugin_id(p: &PluginEntry, agent: &str, id: &str) -> (r: bool)
    ensures
        r == is_plugin(p@, agent@, id@),
{
    let here = ids::stable_id_for(&scanner::key_of_plugin(p), "plugin", agent);
    text::str_eq(&here, id)
}

fn find_plugin_in(agent: &Agent, id: &str) -> (r: Option<PluginEntry>)
    ensures
        models::opt_view(r) == plugin_in(agent@.plugins, agent@.name, id@),
{
    let ghost v = models::list_view(agent.plugins@);
    let mut i: usize = 0;
    assert(v.skip(0) =~= v);
    while i < agent.plugins.len()
        invariant
            v == models::list_view(agent.plugins@),
            v == agent@.plugins,
            i <= agent.plugins.len(),
            plugin_in(v.skip(i as int), agent@.name, id@) == plugin_in(v, agent@.name, id@),
        decreases agent.plugins.len() - i,
    {
        assert(v.skip(i as int)[0] == agent.plugins@[i as int]@);
        assert(v.skip(i as int).drop_first() =~= v.skip(i + 1));
        if has_plugin_id(&agent.plugins[i], &agent.name, id) {
            return Some(agent.plugins[i].clone());
        }
        i += 1;
    }
    None
}

fn find_plugin_of(agents: &Vec<Agent>, names: &Vec<String>, id: &str) -> (r: Option<PluginEntry>)
    ensures
        models::opt_view(r) == plugin_of(models::list_view(agents@), text::strs(names@), id@),
{
    let ghost v = models::list_view(agents@);
    let mut i: usize = 0;
    assert(v.skip(0) =~= v);
    while i < agents.len()
        invariant
            v == models::list_view(agents@),
            i <= agents.len(),
            plugin_of(v.skip(i as int), text::strs(names@), id@) == plugin_of(
                v,
                text::strs(names@),
                id@,
            ),
        decreases agents.len() - i,
    {
        assert(v.skip(i as int)[0] == agents@[i as int]@);
        assert(v.skip(i as int).drop_first() =~= v.skip(i + 1));
        if text::list_has(names, &agents[i].name) {
            let found = find_plugin_in(&agents[i], id);
            if found.is_some() {
                return found;
            }
        }
        i += 1;
    }
    None
}

fn find_plugin_content(fs: &FileTree, agents: &Vec<Agent>, e: &Extension, id: &str) -> (r:
    ExtensionContent)
    ensures
        r@ == plugin_content(fs@, models::list_view(agents@), e@, id@),
{
    match find_plugin_of(agents, &e.agents, id) {
        None => show(e.description.clone(), None),
        Some(p) => {
            let content = match &p.path {
                Some(q) => read_plugin_detail(fs, q, &e.description),
                None => e.description.clone(),
            };
            show(content, p.path)
        },
    }
}

// ---------------------------------------------------------------------------
// The whole
// ---------------------------------------------------------------------------

/// What is to be shown of a known extension.
pub open spec fn reading_for(
    fs: FileTreeView,
    agents: Seq<AgentView>,
    e: ExtensionView,
    projects: Seq<(Seq<char>, Seq<char>)>,
    id: Seq<char>,
) -> Result<ReadingView, HkErrorView> {
    match e.kind {
        ExtensionKind::Skill => match skills::location_of(fs, agents, id, e.agents, projects) {
            None => Err(HkErrorView::NotFound("Skill file not found"@)),
            Some(loc) => Ok(
                ReadingView::File {
                    file: loc.skill_file,
                    path: dir_of_skill(fs, loc),
                    symlink_target: link_of_skill(fs, loc),
                },
            ),
        },
        ExtensionKind::Mcp => Ok(
            ReadingView::Known(server_content(agents, e, id, e.source_path)),
        ),
        ExtensionKind::Hook => Ok(
            ReadingView::Known(hook_content(agents, e, id, e.source_path)),
        ),
        ExtensionKind::Plugin => Ok(ReadingView::Known(plugin_content(fs, agents, e, id))),
        ExtensionKind::Cli => Ok(ReadingView::Known(shown(e.description, None))),
        _ => match e.source_path {
            None => Err(HkErrorView::NotFound("Extension source path missing"@)),
            Some(p) => Ok(
                ReadingView::File {
                    file: audit::live_path(fs, p),
                    path: audit::live_path(fs, p),
                    symlink_target: None,
                },
            ),
        },
    }
}

/// What is to be shown of the extension with an identifier.
pub open spec fn reading_of(
    s: StoreView,
    fs: FileTreeView,
    agents: Seq<AgentView>,
    id: Seq<char>,
) -> Result<ReadingView, HkErrorView> {
    match store::row_with(s.rows, id) {
        None => Err(HkErrorView::NotFound("Extension not found"@)),
        Some(e) => reading_for(fs, agents, e, store::project_tuples(s.projects), id),
    }
}

/// What is to be shown of the extension with an identifier.
pub fn plan_reading(store: &Store, fs: &FileTree, agents: &Vec<Agent>, id: &str) -> (r: Result<
    Reading,
    HkError,
>)
    ensures
        reading_view(r) == reading_of(store@, fs@, models::list_view(agents@), id@),
{
    let e = match store.get_extension(id) {
        None => {
            return Err(HkError::NotFound("Extension not found".to_owned()));
        },
        Some(e) => e,
    };
    match e.kind {
        ExtensionKind::Skill => {
            let projects = store.list_project_tuples();
            match skills::find_skill_by_id(fs, agents, id, &e.agents, &projects) {
                None => Err(HkError::NotFound("Skill file not found".to_owned())),
                Some(loc) => {
                    let path = find_dir_of_skill(fs, &loc);
                    let symlink_target = find_link_of_skill(fs, &loc);
                    Ok(Reading::File { file: loc.skill_file, path, symlink_target })
                },
            }
        },
        ExtensionKind::Mcp => Ok(Reading::Known(find_server_content(agents, &e, id))),
        ExtensionKind::Hook => Ok(Reading::Known(find_hook_content(agents, &e, id))),
        ExtensionKind::Plugin => Ok(Reading::Known(find_plugin_content(fs, agents, &e, id))),
        ExtensionKind::Cli => Ok(Reading::Known(show(e.description, None))),
        _ => match &e.source_path {
            None => Err(HkError::NotFound("Extension source path missing".to_owned())),
            Some(p) => {
                let file = audit::find_live_path(fs, p);
                Ok(Reading::File { file: file.clone(), path: file, symlink_target: None })
            },
        },
    }
}

/// Whether a result is what follows the reply of the one who reads.
pub open spec fn read_handled(
    path: Seq<char>,
    symlink_target: Option<Seq<char>>,
    reply: Result<String, HkError>,
    r: Result<ExtensionContent, HkError>,
) -> bool {
    match reply {
        Err(x) => r == Err::<ExtensionContent, HkError>(x),
        Ok(c) => r is Ok && r->Ok_0@ == (ExtensionContentView {
            content: c@,
            path: Some(path),
            symlink_target,
        }),
    }
}

/// What is shown of a file, after the reply of the one who reads it.
pub fn finish_reading(
    path: String,
    symlink_target: Option<String>,
    reply: Result<String, HkError>,
) -> (r: Result<ExtensionContent, HkError>)
    ensures
        read_handled(path@, text::ostr(symlink_target), reply, r),
{
    match reply {
        Err(x) => Err(x),
        Ok(content) => Ok(ExtensionContent { content, path: Some(path), symlink_target }),
    }
}

/// What is shown of the extension with an identifier. `read` reads a file; it need
/// only be ready for the one that is to be shown.
pub fn get_extension_content<R: FnOnce(String) -> Result<String, HkError>>(
    store: &Store,
    fs: &FileTree,
    agents: &Vec<Agent>,
    id: &str,
    read: R,
) -> (r: Result<ExtensionContent, HkError>)
    requires
        reading_of(store@, fs@, models::list_view(agents@), id@) matches Ok(
            ReadingView::File { file, .. },
        ) ==> forall|p: String| p@ == file ==> #[trigger] call_requires(read, (p,)),
    ensures
        match reading_of(store@, fs@, models::list_view(agents@), id@) {
            Err(x) => r is Err && r->Err_0@ == x,
            Ok(ReadingView::Known(c)) => r is Ok && r->Ok_0@ == c,
            Ok(ReadingView::File { file, path, symlink_target }) => exists|
                p: String,
                reply: Result<String, HkError>,
            |
                p@ == file && #[trigger] call_ensures(read, (p,), reply) && read_handled(
                    path,
                    symlink_target,
                    reply,
                    r,
                ),
        },
{
    match plan_reading(store, fs, agents, id) {
        Err(x) => Err(x),
        Ok(Reading::Known(c)) => Ok(c),
        Ok(Reading::File { file, path, symlink_target }) => {
            let ghost p = file;
            let reply = read(file);
            let ghost heard = reply;
            assert(call_ensures(read, (p,), heard));
            finish_reading(path, symlink_target, reply)
        },
    }
}

// ---------------------------------------------------------------------------
// Laws
// ---------------------------------------------------------------------------

/// A server with nothing in its variables.
pub open spec fn blanked(s: McpServerEntryView) -> McpServerEntryView {
    McpServerEntryView {
        env: s.env.map_values(|kv: (Seq<char>, Seq<char>)| (kv.0, Seq::<char>::empty())),
        ..s
    }
}

/// A file with nothing in the variables of its servers.
pub open spec fn blanked_file(f: McpFileView) -> McpFileView {
    McpFileView { servers: f.servers.map_values(|s: McpServerEntryView| blanked(s)), ..f }
}

/// An agent with nothing in the variables of its servers.
pub open spec fn blanked_agent(a: AgentView) -> AgentView {
    AgentView {
        mcp_servers: a.mcp_servers.map_values(|s: McpServerEntryView| blanked(s)),
        mcp_files: a.mcp_files.map_values(|f: McpFileView| blanked_file(f)),
        ..a
    }
}

/// The values of the variables of servers are never shown: with nothing in the
/// variables, the same is shown of a server.
pub proof fn secrets_are_not_shown(
    agents: Seq<AgentView>,
    e: ExtensionView,
    id: Seq<char>,
    fallback: Option<Seq<char>>,
)
    ensures
        server_content(agents.map_values(|a: AgentView| blanked_agent(a)), e, id, fallback)
            == server_content(agents, e, id, fallback),
    decreases agents.len(),
{
    let others = agents.map_values(|a: AgentView| blanked_agent(a));
    if agents.len() > 0 {
        assert(others.drop_first() =~= agents.drop_first().map_values(
            |a: AgentView| blanked_agent(a),
        ));
        secrets_are_not_shown(agents.drop_first(), e, id, fallback);
        if let Some(p) = agents[0].mcp_config_in(e.scope) {
            secrets_are_not_shown(agents.drop_first(), e, id, path_or(fallback, p));
            lemma_blanked_file(agents[0].mcp_files, p);
            let servers = agents::servers_at(agents[0].mcp_files, p);
            lemma_blanked_server(servers, agents[0].name, e.scope, id);
            if let Some(s) = lookup::server_in(servers, agents[0].name, e.scope, id) {
                assert(env_lines(blanked(s).env) =~= env_lines(s.env));
            }
        }
    }
}

proof fn lemma_blanked_file(files: Seq<McpFileView>, p: Seq<char>)
    ensures
        agents::servers_at(files.map_values(|f: McpFileView| blanked_file(f)), p)
            == agents::servers_at(files, p).map_values(|s: McpServerEntryView| blanked(s)),
    decreases files.len(),
{
    let others = files.map_values(|f: McpFileView| blanked_file(f));
    if files.len() > 0 {
        lemma_blanked_file(files.drop_first(), p);
        assert(others.drop_first() =~= files.drop_first().map_values(
            |f: McpFileView| blanked_file(f),
        ));
    } else {
        assert(agents::servers_at(files, p).map_values(|s: McpServerEntryView| blanked(s))
            =~= agents::servers_at(others, p));
    }
}

proof fn lemma_blanked_server(
    servers: Seq<McpServerEntryView>,
    agent: Seq<char>,
    scope: ConfigScopeView,
    id: Seq<char>,
)
    ensures
        lookup::server_in(
            servers.map_values(|s: McpServerEntryView| blanked(s)),
            agent,
            scope,
            id,
        ) == (match lookup::server_in(servers, agent, scope, id) {
            Some(s) => Some(blanked(s)),
            None => None,
        }),
    decreases servers.len(),
{
    let others = servers.map_values(|s: McpServerEntryView| blanked(s));
    if servers.len() > 0 {
        lemma_blanked_server(servers.drop_first(), agent, scope, id);
        assert(others.drop_first() =~= servers.drop_first().map_values(
            |s: McpServerEntryView| blanked(s),
        ));
    }
}

/// Where an extension has no files of its own, showing it needs no file to be
/// read; a skill, a subagent or a command always needs one.
pub proof fn only_files_are_read(
    fs: FileTreeView,
    agents: Seq<AgentView>,
    e: ExtensionView,
    projects: Seq<(Seq<char>, Seq<char>)>,
    id: Seq<char>,
)
    ensures
        reading_for(fs, agents, e, projects, id) matches Ok(r) ==> (r is File <==> e.kind
            == ExtensionKind::Skill || e.kind == ExtensionKind::Subagent || e.kind
            == ExtensionKind::Command),
        e.kind == ExtensionKind::Mcp || e.kind == ExtensionKind::Hook || e.kind
            == ExtensionKind::Plugin || e.kind == ExtensionKind::Cli ==> reading_for(
            fs,
            agents,
            e,
            projects,
            id,
        ) is Ok,
{
}

} // verus!
