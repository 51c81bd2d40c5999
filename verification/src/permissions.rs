//! Which tools may run: by the mode, by the rules of the settings, and by what the user granted.
use crate::config::{PermissionMode, RoninConfig};
use crate::digest::{digest_text, text_digest};
use crate::order::{
    indices, map_keeps_multisets, ordered, ordered_is_sorted, sort_indices, text_before, text_leq,
    text_leq_antisymmetric, text_leq_total, text_leq_transitive,
};
use crate::text::{
    ascii_lower, begins_with, cat2, cat3, cat5, lower_ascii, same, starts_with, texts, trim,
    trimmed, words, words_are_words, words_begin_by_words,
};
use crate::tool::{AgentToolKind, ToolPermissionDescription};
use crate::tools::{normalize_command, normalized, normalizing_twice_is_normalizing_once};
use vstd::prelude::*;
use vstd::relations::{antisymmetric, reflexive, strongly_connected, total_ordering, transitive};

verus! {

/// What the user granted in a workspace.
#[derive(Debug, Clone, PartialEq, Eq)]
pub struct WorkspaceGrants {
    pub path: String,
    pub allowed_tools: Vec<String>,
    pub allowed_commands: Vec<String>,
}

/// A workspace by its key, with what the user granted in it.
#[derive(Debug, Clone, PartialEq, Eq)]
pub struct Workspace {
    pub key: String,
    pub grants: WorkspaceGrants,
}

/// The mathematical value of a [`Workspace`].
#[verifier::ext_equal]
pub struct WorkspaceView {
    pub key: Seq<char>,
    pub path: Seq<char>,
    pub tools: Seq<Seq<char>>,
    pub commands: Seq<Seq<char>>,
}

impl View for Workspace {
    type V = WorkspaceView;

    open spec fn view(&self) -> WorkspaceView {
        WorkspaceView {
            key: self.key@,
            path: self.grants.path@,
            tools: texts(self.grants.allowed_tools@),
            commands: texts(self.grants.allowed_commands@),
        }
    }
}

impl DeepView for Workspace {
    type V = WorkspaceView;

    open spec fn deep_view(&self) -> WorkspaceView {
        self@
    }
}

/// A grant as it is listed.
#[derive(Debug, PartialEq, Eq)]
pub struct StoredPermissionGrant {
    pub id: String,
    pub workspace_path: String,
    pub kind: String,
    pub value: String,
}

/// The mathematical value of a [`StoredPermissionGrant`].
pub struct GrantView {
    pub id: Seq<char>,
    pub workspace_path: Seq<char>,
    pub kind: Seq<char>,
    pub value: Seq<char>,
}

impl View for StoredPermissionGrant {
    type V = GrantView;

    open spec fn view(&self) -> GrantView {
        GrantView {
            id: self.id@,
            workspace_path: self.workspace_path@,
            kind: self.kind@,
            value: self.value@,
        }
    }
}

impl DeepView for StoredPermissionGrant {
    type V = GrantView;

    open spec fn deep_view(&self) -> GrantView {
        self@
    }
}

impl Clone for StoredPermissionGrant {
    fn clone(&self) -> (r: Self)
        ensures
            r == *self,
    {
        StoredPermissionGrant {
            id: self.id.clone(),
            workspace_path: self.workspace_path.clone(),
            kind: self.kind.clone(),
            value: self.value.clone(),
        }
    }
}

// ---------------------------------------------------------------------------------------------
// Rules
// ---------------------------------------------------------------------------------------------

/// Whether a normalized command is a rule or starts with it.
pub open spec fn rule_covers(command: Seq<char>, rule: Seq<char>) -> bool {
    rule.len() > 0 && (command == rule || begins_with(command, rule + " "@))
}

/// Whether one of some rules covers a command.
pub open spec fn rules_cover(command: Seq<char>, rules: Seq<Seq<char>>) -> bool {
    exists|i: int|
        0 <= i < rules.len() && rule_covers(normalized(command), normalized(#[trigger] rules[i]))
}

/// Whether one of some rules covers a command.
pub fn matches_rule(command: &str, rules: &Vec<String>) -> (r: bool)
    ensures
        r == rules_cover(command@, texts(rules@)),
{
    let given = normalize_command(command);
    let ghost all = texts(rules@);
    let mut i: usize = 0;
    while i < rules.len()
        invariant
            i <= rules@.len(),
            all == texts(rules@),
            given@ == normalized(command@),
            forall|k: int| 0 <= k < i ==> !rule_covers(given@, normalized(#[trigger] all[k])),
        decreases rules.len() - i,
    {
        assert(all[i as int] == rules@[i as int]@);
        let rule = normalize_command(rules[i].as_str());
        if !rule.as_str().is_empty() && (same(given.as_str(), rule.as_str()) || starts_with(
            given.as_str(),
            cat2(rule.as_str(), " ").as_str(),
        )) {
            return true;
        }
        i += 1;
    }
    false
}

/// Whether a text is among some texts.
pub open spec fn listed(list: Seq<Seq<char>>, text: Seq<char>) -> bool {
    list.contains(text)
}

/// Whether a text is among some texts.
pub fn is_listed(list: &Vec<String>, text: &str) -> (r: bool)
    ensures
        r == listed(texts(list@), text@),
{
    let ghost all = texts(list@);
    let mut i: usize = 0;
    while i < list.len()
        invariant
            i <= list@.len(),
            all == texts(list@),
            forall|k: int| 0 <= k < i ==> all[k] != text@,
        decreases list.len() - i,
    {
        assert(all[i as int] == list@[i as int]@);
        if same(list[i].as_str(), text) {
            return true;
        }
        i += 1;
    }
    false
}

// ---------------------------------------------------------------------------------------------
// Grants
// ---------------------------------------------------------------------------------------------

/// The place of the workspace of a key from a place on; the number of workspaces where there is
/// none.
pub open spec fn workspace_index(all: Seq<WorkspaceView>, key: Seq<char>, from: int) -> int
    decreases all.len() - from,
{
    if from < 0 || from >= all.len() {
        all.len() as int
    } else if all[from].key == key {
        from
    } else {
        workspace_index(all, key, from + 1)
    }
}

/// No two workspaces have the same key.
pub open spec fn distinct_workspaces(all: Seq<WorkspaceView>) -> bool {
    forall|i: int, j: int| 0 <= i < j < all.len() ==> all[i].key != all[j].key
}

proof fn workspace_index_bounds(all: Seq<WorkspaceView>, key: Seq<char>, from: int)
    requires
        0 <= from <= all.len(),
    ensures
        from <= workspace_index(all, key, from) <= all.len(),
        workspace_index(all, key, from) < all.len() ==> all[workspace_index(all, key, from)].key
            == key,
        forall|k: int| from <= k < workspace_index(all, key, from) ==> (#[trigger] all[k]).key != key,
    decreases all.len() - from,
{
    if from < all.len() && all[from].key != key {
        workspace_index_bounds(all, key, from + 1);
    }
}

/// Whether what the user granted in a workspace allows a tool to run.
pub open spec fn granted(
    all: Seq<WorkspaceView>,
    key: Seq<char>,
    kind: AgentToolKind,
    name: Seq<char>,
    command: Option<Seq<char>>,
) -> bool {
    let at = workspace_index(all, key, 0);
    at < all.len() && if kind == AgentToolKind::Edit {
        listed(all[at].tools, name)
    } else {
        command is Some && listed(all[at].commands, command->0)
    }
}

/// Texts with another among them.
pub open spec fn with_text(list: Seq<Seq<char>>, text: Seq<char>) -> Seq<Seq<char>> {
    if listed(list, text) {
        list
    } else {
        list.push(text)
    }
}

/// The workspaces with one of a key among them.
pub open spec fn with_workspace(all: Seq<WorkspaceView>, key: Seq<char>, root: Seq<char>) -> Seq<
    WorkspaceView,
> {
    if workspace_index(all, key, 0) < all.len() {
        all
    } else {
        all.push(
            WorkspaceView { key, path: root, tools: Seq::empty(), commands: Seq::empty() },
        )
    }
}

/// A workspace with a tool or a command granted.
pub open spec fn grant_added(
    w: WorkspaceView,
    kind: AgentToolKind,
    name: Seq<char>,
    command: Seq<char>,
) -> WorkspaceView {
    if kind == AgentToolKind::Edit {
        WorkspaceView { tools: with_text(w.tools, name), ..w }
    } else if kind == AgentToolKind::Shell {
        WorkspaceView { commands: with_text(w.commands, command), ..w }
    } else {
        w
    }
}

/// The workspaces after a tool or a command was granted in one.
pub open spec fn persisted(
    all: Seq<WorkspaceView>,
    key: Seq<char>,
    root: Seq<char>,
    kind: AgentToolKind,
    name: Seq<char>,
    command: Seq<char>,
) -> Seq<WorkspaceView> {
    let base = with_workspace(all, key, root);
    let at = workspace_index(all, key, 0);
    base.update(at, grant_added(base[at], kind, name, command))
}

/// The id of a grant.
pub open spec fn id_of_grant(key: Seq<char>, kind: Seq<char>, value: Seq<char>) -> Seq<char> {
    text_digest(key + ":"@ + kind + ":"@ + value)
}

/// The id of a grant.
pub fn grant_id(key: &str, kind: &str, value: &str) -> (r: String)
    ensures
        r@ == id_of_grant(key@, kind@, value@),
{
    digest_text(cat5(key, ":", kind, ":", value).as_str())
}

/// A grant as it is listed.
pub open spec fn grant_of(key: Seq<char>, path: Seq<char>, kind: Seq<char>, value: Seq<char>) -> GrantView {
    GrantView { id: id_of_grant(key, kind, value), workspace_path: path, kind, value }
}

/// A grant as it is listed.
pub fn grant(key: &str, path: &str, kind: &str, value: &str) -> (r: StoredPermissionGrant)
    ensures
        r@ == grant_of(key@, path@, kind@, value@),
{
    StoredPermissionGrant {
        id: grant_id(key, kind, value),
        workspace_path: path.to_owned(),
        kind: kind.to_owned(),
        value: value.to_owned(),
    }
}

/// The values whose grants have another id.
pub open spec fn kept_values(
    key: Seq<char>,
    kind: Seq<char>,
    values: Seq<Seq<char>>,
    id: Seq<char>,
) -> Seq<Seq<char>>
    decreases values.len(),
{
    if values.len() == 0 {
        Seq::empty()
    } else if id_of_grant(key, kind, values.last()) == id {
        kept_values(key, kind, values.drop_last(), id)
    } else {
        kept_values(key, kind, values.drop_last(), id).push(values.last())
    }
}

/// Whether one of some values has a grant of an id.
pub open spec fn value_has_grant(
    key: Seq<char>,
    kind: Seq<char>,
    values: Seq<Seq<char>>,
    id: Seq<char>,
) -> bool {
    exists|i: int| 0 <= i < values.len() && id_of_grant(key, kind, #[trigger] values[i]) == id
}

/// Whether a workspace has a grant of an id.
pub open spec fn holds_grant(w: WorkspaceView, id: Seq<char>) -> bool {
    value_has_grant(w.key, "tool"@, w.tools, id) || value_has_grant(
        w.key,
        "command"@,
        w.commands,
        id,
    )
}

proof fn kept_values_len(key: Seq<char>, kind: Seq<char>, values: Seq<Seq<char>>, id: Seq<char>)
    ensures
        kept_values(key, kind, values, id).len() <= values.len(),
        value_has_grant(key, kind, values, id) <==> kept_values(key, kind, values, id).len()
            < values.len(),
        !value_has_grant(key, kind, values, id) ==> kept_values(key, kind, values, id) == values,
    decreases values.len(),
{
    if values.len() > 0 {
        let rest = values.drop_last();
        kept_values_len(key, kind, rest, id);
        if value_has_grant(key, kind, rest, id) {
            let i = choose|i: int|
                0 <= i < rest.len() && id_of_grant(key, kind, #[trigger] rest[i]) == id;
            assert(values[i] == rest[i]);
        }
        if id_of_grant(key, kind, values.last()) == id {
            assert(values[values.len() - 1] == values.last());
        } else if value_has_grant(key, kind, values, id) {
            let i = choose|i: int|
                0 <= i < values.len() && id_of_grant(key, kind, #[trigger] values[i]) == id;
            assert(rest[i] == values[i]);
        } else {
            assert(kept_values(key, kind, values, id) =~= values);
        }
    } else {
        assert(kept_values(key, kind, values, id) =~= values);
    }
}

/// A workspace without the grants of an id.
pub open spec fn without_grant(w: WorkspaceView, id: Seq<char>) -> WorkspaceView {
    WorkspaceView {
        tools: kept_values(w.key, "tool"@, w.tools, id),
        commands: kept_values(w.key, "command"@, w.commands, id),
        ..w
    }
}

/// The workspaces without the grants of an id.
pub open spec fn revoked(all: Seq<WorkspaceView>, id: Seq<char>) -> Seq<WorkspaceView> {
    all.map_values(|w: WorkspaceView| without_grant(w, id))
}

/// The grants of a workspace.
pub open spec fn workspace_grants(w: WorkspaceView) -> Seq<GrantView> {
    w.tools.map_values(|v: Seq<char>| grant_of(w.key, w.path, "tool"@, v)) + w.commands.map_values(
        |v: Seq<char>| grant_of(w.key, w.path, "command"@, v),
    )
}

/// The grants of all workspaces.
pub open spec fn all_grants(all: Seq<WorkspaceView>) -> Seq<GrantView>
    decreases all.len(),
{
    if all.len() == 0 {
        Seq::empty()
    } else {
        all_grants(all.drop_last()) + workspace_grants(all.last())
    }
}

/// The order in which grants are listed: by the workspace, then by the value, then as they were.
pub open spec fn grant_order(list: Seq<GrantView>) -> spec_fn(int, int) -> bool {
    |i: int, j: int|
        {
            let a = list[i];
            let b = list[j];
            if a.workspace_path != b.workspace_path {
                text_leq(a.workspace_path, b.workspace_path)
            } else if a.value != b.value {
                text_leq(a.value, b.value)
            } else {
                i <= j
            }
        }
}

/// The grants in the order in which they are listed.
pub open spec fn sorted_grants(list: Seq<GrantView>) -> Seq<GrantView> {
    ordered(list.len(), grant_order(list)).map_values(|i: int| list[i])
}

proof fn grant_order_is_total(list: Seq<GrantView>)
    ensures
        total_ordering(grant_order(list)),
{
    let leq = grant_order(list);
    assert forall|i: int, j: int| #[trigger] leq(i, j) && #[trigger] leq(j, i) implies i == j by {
        let a = list[i];
        let b = list[j];
        if a.workspace_path != b.workspace_path {
            text_leq_antisymmetric(a.workspace_path, b.workspace_path);
        } else if a.value != b.value {
            text_leq_antisymmetric(a.value, b.value);
        }
    }
    assert forall|i: int, j: int, k: int| #[trigger] leq(i, j) && #[trigger] leq(j, k) implies leq(
        i,
        k,
    ) by {
        let a = list[i];
        let b = list[j];
        let c = list[k];
        if a.workspace_path != b.workspace_path && b.workspace_path != c.workspace_path {
            text_leq_transitive(a.workspace_path, b.workspace_path, c.workspace_path);
            if a.workspace_path == c.workspace_path {
                text_leq_antisymmetric(a.workspace_path, b.workspace_path);
            }
        } else if a.workspace_path == b.workspace_path && b.workspace_path == c.workspace_path {
            if a.value != b.value && b.value != c.value {
                text_leq_transitive(a.value, b.value, c.value);
                if a.value == c.value {
                    text_leq_antisymmetric(a.value, b.value);
                }
            }
        }
    }
    assert forall|i: int, j: int| #[trigger] leq(i, j) || #[trigger] leq(j, i) by {
        text_leq_total(list[i].workspace_path, list[j].workspace_path);
        text_leq_total(list[i].value, list[j].value);
    }
    assert forall|i: int| #[trigger] leq(i, i) by {}
    assert(reflexive(leq) && antisymmetric(leq) && transitive(leq) && strongly_connected(leq));
}

// ---------------------------------------------------------------------------------------------
// Decisions
// ---------------------------------------------------------------------------------------------

/// What is known of whether a tool may run; nothing where the user is to be asked.
pub open spec fn decision(
    config: RoninConfig,
    dangerous: bool,
    key: Seq<char>,
    all: Seq<WorkspaceView>,
    kind: AgentToolKind,
    name: Seq<char>,
    described: Option<Seq<char>>,
) -> Option<bool> {
    let mode = config.permission_mode;
    let command = if kind == AgentToolKind::Shell && described is Some {
        Some(normalized(described->0))
    } else {
        None
    };
    if mode == PermissionMode::Yolo {
        Some(dangerous)
    } else if listed(texts(config.denied_tools@), name) {
        Some(false)
    } else if kind == AgentToolKind::Read {
        Some(true)
    } else if described is None {
        None
    } else if command is Some && rules_cover(command->0, texts(config.denied_commands@)) {
        Some(false)
    } else if listed(texts(config.allowed_tools@), name) || (command is Some && rules_cover(
        command->0,
        texts(config.allowed_commands@),
    )) || granted(all, key, kind, name, command) {
        Some(true)
    } else {
        match mode {
            PermissionMode::Plan => Some(false),
            PermissionMode::AcceptEdits => if kind == AgentToolKind::Edit {
                Some(true)
            } else {
                None
            },
            PermissionMode::Auto => Some(true),
            _ => None,
        }
    }
}

/// What the file of grants holds.
#[derive(Debug, PartialEq, Eq)]
pub enum StoreFile {
    Missing,
    Malformed,
    Loaded(Vec<Workspace>),
}

/// Decides which tools may run in a workspace.
#[derive(Debug)]
pub struct PermissionController {
    pub config: RoninConfig,
    pub dangerous: bool,
    pub key: String,
    pub root: String,
    pub workspaces: Vec<Workspace>,
    pub warnings: Vec<String>,
}

/// The key that a description is remembered under.
pub open spec fn described_key(description: Option<&ToolPermissionDescription>) -> Option<Seq<char>> {
    match description {
        Some(d) => Some(d.persistence_key@),
        None => None,
    }
}

impl PermissionController {
    /// What holds of the controller at all times.
    pub open spec fn wf(self) -> bool {
        distinct_workspaces(self.workspaces.deep_view())
    }

    /// A controller for the workspace at a root. `path` is the file of grants, and `store` what it
    /// holds.
    pub fn new(
        root: String,
        config: RoninConfig,
        dangerous: bool,
        path: &str,
        store: StoreFile,
    ) -> (r: Self)
        requires
            store matches StoreFile::Loaded(all) ==> distinct_workspaces(all.deep_view()),
        ensures
            r.wf(),
            r.config == config,
            r.dangerous == dangerous,
            r.root == root,
            r.key@ == text_digest(root@),
            match store {
                StoreFile::Missing => r.workspaces@.len() == 0 && r.warnings@.len() == 0,
                StoreFile::Malformed => r.workspaces@.len() == 0 && texts(r.warnings@) == seq![
                    "Ignoring malformed permission store at "@ + path@
                        + "; no grants were loaded."@,
                ],
                StoreFile::Loaded(all) => r.workspaces == all && r.warnings@.len() == 0,
            },
    {
        let mut warnings: Vec<String> = Vec::new();
        let workspaces = match store {
            StoreFile::Missing => Vec::new(),
            StoreFile::Malformed => {
                warnings.push(
                    cat3(
                        "Ignoring malformed permission store at ",
                        path,
                        "; no grants were loaded.",
                    ),
                );
                Vec::new()
            },
            StoreFile::Loaded(all) => all,
        };
        proof {
            if store is Malformed {
                assert(texts(warnings@) =~= seq![
                    "Ignoring malformed permission store at "@ + path@
                        + "; no grants were loaded."@,
                ]);
            }
        }
        let key = digest_text(root.as_str());
        PermissionController { config, dangerous, key, root, workspaces, warnings }
    }

    fn find_workspace(&self, key: &str) -> (r: usize)
        ensures
            r == workspace_index(self.workspaces.deep_view(), key@, 0),
            r <= self.workspaces@.len(),
    {
        let ghost all = self.workspaces.deep_view();
        let mut i: usize = 0;
        while i < self.workspaces.len()
            invariant
                i <= self.workspaces@.len(),
                all == self.workspaces.deep_view(),
                workspace_index(all, key@, 0) == workspace_index(all, key@, i as int),
            decreases self.workspaces.len() - i,
        {
            assert(all[i as int] == self.workspaces@[i as int]@);
            if same(self.workspaces[i].key.as_str(), key) {
                return i;
            }
            i += 1;
        }
        i
    }

    /// What is known of whether a tool may run; nothing where the user is to be asked.
    pub fn preauthorize(
        &self,
        kind: AgentToolKind,
        name: &str,
        description: Option<&ToolPermissionDescription>,
    ) -> (r: Option<bool>)
        ensures
            r == decision(
                self.config,
                self.dangerous,
                self.key@,
                self.workspaces.deep_view(),
                kind,
                name@,
                described_key(description),
            ),
    {
        if self.config.permission_mode == PermissionMode::Yolo {
            return Some(self.dangerous);
        }
        if is_listed(&self.config.denied_tools, name) {
            return Some(false);
        }
        if kind == AgentToolKind::Read {
            return Some(true);
        }
        let description = match description {
            Some(description) => description,
            None => return None,
        };
        let command = if kind == AgentToolKind::Shell {
            Some(normalize_command(description.persistence_key.as_str()))
        } else {
            None
        };
        let mut allowed = is_listed(&self.config.allowed_tools, name);
        if let Some(command) = &command {
            if matches_rule(command.as_str(), &self.config.denied_commands) {
                return Some(false);
            }
            allowed = allowed || matches_rule(command.as_str(), &self.config.allowed_commands);
        }
        let at = self.find_workspace(self.key.as_str());
        if at < self.workspaces.len() {
            assert(self.workspaces.deep_view()[at as int] == self.workspaces@[at as int]@);
            let grants = &self.workspaces[at].grants;
            if kind == AgentToolKind::Edit {
                allowed = allowed || is_listed(&grants.allowed_tools, name);
            } else if let Some(command) = &command {
                allowed = allowed || is_listed(&grants.allowed_commands, command.as_str());
            }
        }
        if allowed {
            return Some(true);
        }
        match self.config.permission_mode {
            PermissionMode::Plan => Some(false),
            PermissionMode::AcceptEdits => if kind == AgentToolKind::Edit {
                Some(true)
            } else {
                None
            },
            PermissionMode::Auto => Some(true),
            PermissionMode::Default => None,
            PermissionMode::Yolo => None,
        }
    }

    /// Whether a tool may run where nobody can be asked.
    pub fn authorize(
        &self,
        kind: AgentToolKind,
        name: &str,
        description: Option<&ToolPermissionDescription>,
    ) -> (r: bool)
        ensures
            r == (decision(
                self.config,
                self.dangerous,
                self.key@,
                self.workspaces.deep_view(),
                kind,
                name@,
                described_key(description),
            ) == Some(true)),
    {
        match self.preauthorize(kind, name, description) {
            Some(decided) => decided,
            None => false,
        }
    }

    /// Remembers that a tool or a command may run in this workspace.
    pub fn persist_grant(
        &mut self,
        kind: AgentToolKind,
        name: &str,
        description: &ToolPermissionDescription,
    )
        requires
            old(self).wf(),
        ensures
            final(self).wf(),
            final(self).config == old(self).config,
            final(self).dangerous == old(self).dangerous,
            final(self).key == old(self).key,
            final(self).root == old(self).root,
            final(self).warnings == old(self).warnings,
            final(self).workspaces.deep_view() == persisted(
                old(self).workspaces.deep_view(),
                old(self).key@,
                old(self).root@,
                kind,
                name@,
                normalized(description.persistence_key@),
            ),
    {
        let ghost before = self.workspaces.deep_view();
        let at = self.find_workspace(self.key.as_str());
        proof {
            workspace_index_bounds(before, self.key@, 0);
        }
        if at == self.workspaces.len() {
            let fresh = Workspace {
                key: self.key.clone(),
                grants: WorkspaceGrants {
                    path: self.root.clone(),
                    allowed_tools: Vec::new(),
                    allowed_commands: Vec::new(),
                },
            };
            assert(fresh@ =~= WorkspaceView {
                key: self.key@,
                path: self.root@,
                tools: Seq::empty(),
                commands: Seq::empty(),
            });
            self.workspaces.push(fresh);
        }
        let ghost base = self.workspaces.deep_view();
        assert(base =~= with_workspace(before, self.key@, self.root@));
        assert(base[at as int] == self.workspaces@[at as int]@);
        let command = normalize_command(description.persistence_key.as_str());
        let ghost w = base[at as int];
        if kind == AgentToolKind::Edit {
            if !is_listed(&self.workspaces[at].grants.allowed_tools, name) {
                self.workspaces[at].grants.allowed_tools.push(name.to_owned());
                assert(self.workspaces@[at as int]@.tools =~= w.tools.push(name@));
            }
        } else if kind == AgentToolKind::Shell {
            if !is_listed(&self.workspaces[at].grants.allowed_commands, command.as_str()) {
                self.workspaces[at].grants.allowed_commands.push(command);
                assert(self.workspaces@[at as int]@.commands =~= w.commands.push(command@));
            }
        }
        assert(self.workspaces@[at as int]@ =~= grant_added(w, kind, name@, command@));
        assert(self.workspaces.deep_view() =~= base.update(
            at as int,
            grant_added(w, kind, name@, command@),
        ));
    }

    fn keep_values(key: &str, kind: &str, values: &Vec<String>, id: &str) -> (r: Vec<String>)
        ensures
            texts(r@) == kept_values(key@, kind@, texts(values@), id@),
    {
        let ghost all = texts(values@);
        let mut r: Vec<String> = Vec::new();
        let mut i: usize = 0;
        while i < values.len()
            invariant
                i <= values@.len(),
                all == texts(values@),
                texts(r@) == kept_values(key@, kind@, all.take(i as int), id@),
            decreases values.len() - i,
        {
            let ghost head = all.take(i + 1);
            assert(head.drop_last() =~= all.take(i as int));
            assert(head.last() == values@[i as int]@);
            let found = grant_id(key, kind, values[i].as_str());
            if !same(found.as_str(), id) {
                let ghost before = texts(r@);
                r.push(values[i].clone());
                assert(texts(r@) =~= before.push(values@[i as int]@));
            }
            i += 1;
        }
        assert(all.take(i as int) =~= all);
        r
    }

    /// Takes back the grants of an id, in all workspaces; says whether there were any.
    pub fn revoke_grant(&mut self, id: &str) -> (r: bool)
        requires
            old(self).wf(),
        ensures
            final(self).wf(),
            final(self).config == old(self).config,
            final(self).dangerous == old(self).dangerous,
            final(self).key == old(self).key,
            final(self).root == old(self).root,
            final(self).warnings == old(self).warnings,
            final(self).workspaces.deep_view() == revoked(old(self).workspaces.deep_view(), id@),
            r == exists|i: int|
                0 <= i < old(self).workspaces@.len() && holds_grant(
                    #[trigger] old(self).workspaces.deep_view()[i],
                    id@,
                ),
    {
        let ghost all = self.workspaces.deep_view();
        let mut removed = false;
        let mut i: usize = 0;
        while i < self.workspaces.len()
            invariant
                i <= self.workspaces@.len(),
                self.workspaces@.len() == all.len(),
                all == old(self).workspaces.deep_view(),
                self.config == old(self).config,
                self.dangerous == old(self).dangerous,
                self.key == old(self).key,
                self.root == old(self).root,
                self.warnings == old(self).warnings,
                forall|k: int|
                    0 <= k < i ==> (#[trigger] self.workspaces@[k])@ == without_grant(all[k], id@),
                forall|k: int| i <= k < all.len() ==> (#[trigger] self.workspaces@[k])@ == all[k],
                removed == exists|k: int| 0 <= k < i && holds_grant(#[trigger] all[k], id@),
            decreases self.workspaces.len() - i,
        {
            let ghost w = all[i as int];
            assert(self.workspaces@[i as int]@ == w);
            let workspace = &self.workspaces[i];
            let key = workspace.key.clone();
            let tools = Self::keep_values(
                key.as_str(),
                "tool",
                &workspace.grants.allowed_tools,
                id,
            );
            let commands = Self::keep_values(
                key.as_str(),
                "command",
                &workspace.grants.allowed_commands,
                id,
            );
            let fewer = tools.len() != workspace.grants.allowed_tools.len() || commands.len()
                != workspace.grants.allowed_commands.len();
            proof {
                kept_values_len(w.key, "tool"@, w.tools, id@);
                kept_values_len(w.key, "command"@, w.commands, id@);
                assert(texts(tools@).len() == tools@.len());
                assert(texts(commands@).len() == commands@.len());
                assert(w.tools.len() == self.workspaces@[i as int].grants.allowed_tools@.len());
                assert(w.commands.len() == self.workspaces@[i as int].grants.allowed_commands@.len());
                assert(fewer == holds_grant(w, id@));
            }
            let ghost was = removed;
            removed = removed || fewer;
            self.workspaces[i].grants.allowed_tools = tools;
            self.workspaces[i].grants.allowed_commands = commands;
            assert(self.workspaces@[i as int]@ =~= without_grant(w, id@));
            i += 1;
            proof {
                if fewer {
                    assert(holds_grant(all[i - 1], id@));
                } else if was {
                    let k = choose|k: int| 0 <= k < i - 1 && holds_grant(#[trigger] all[k], id@);
                    assert(holds_grant(all[k], id@));
                }
            }
        }
        assert(self.workspaces.deep_view() =~= revoked(all, id@));
        removed
    }

    /// Takes back all grants of this workspace; says how many there were.
    pub fn reset_workspace(&mut self) -> (r: usize)
        requires
            old(self).wf(),
        ensures
            final(self).wf(),
            final(self).config == old(self).config,
            final(self).dangerous == old(self).dangerous,
            final(self).key == old(self).key,
            final(self).root == old(self).root,
            final(self).warnings == old(self).warnings,
            ({
                let all = old(self).workspaces.deep_view();
                let at = workspace_index(all, old(self).key@, 0);
                if at < all.len() {
                    &&& final(self).workspaces.deep_view() == all.remove(at)
                    &&& r == (if all[at].tools.len() + all[at].commands.len() <= usize::MAX {
                        (all[at].tools.len() + all[at].commands.len()) as int
                    } else {
                        usize::MAX as int
                    })
                } else {
                    final(self).workspaces == old(self).workspaces && r == 0
                }
            }),
    {
        let ghost all = self.workspaces.deep_view();
        let at = self.find_workspace(self.key.as_str());
        if at >= self.workspaces.len() {
            return 0;
        }
        assert(all[at as int] == self.workspaces@[at as int]@);
        let tools = self.workspaces[at].grants.allowed_tools.len();
        let commands = self.workspaces[at].grants.allowed_commands.len();
        self.workspaces.remove(at);
        assert(self.workspaces.deep_view() =~= all.remove(at as int));
        if tools > usize::MAX - commands {
            usize::MAX
        } else {
            tools + commands
        }
    }

    fn list_grants(&self) -> (r: Vec<StoredPermissionGrant>)
        ensures
            r.deep_view() == all_grants(self.workspaces.deep_view()),
    {
        let ghost all = self.workspaces.deep_view();
        let mut r: Vec<StoredPermissionGrant> = Vec::new();
        let mut i: usize = 0;
        assert(r.deep_view() =~= Seq::empty());
        while i < self.workspaces.len()
            invariant
                i <= self.workspaces@.len(),
                all == self.workspaces.deep_view(),
                r.deep_view() == all_grants(all.take(i as int)),
            decreases self.workspaces.len() - i,
        {
            let workspace = &self.workspaces[i];
            let ghost w = workspace@;
            let ghost head = all.take(i + 1);
            assert(head.drop_last() =~= all.take(i as int));
            assert(head.last() == w);
            let ghost first = r.deep_view();
            let ghost tool_grants = w.tools.map_values(
                |v: Seq<char>| grant_of(w.key, w.path, "tool"@, v),
            );
            let ghost command_grants = w.commands.map_values(
                |v: Seq<char>| grant_of(w.key, w.path, "command"@, v),
            );
            let mut k: usize = 0;
            assert(first + tool_grants.take(0) =~= first);
            while k < workspace.grants.allowed_tools.len()
                invariant
                    k <= workspace.grants.allowed_tools@.len(),
                    w == workspace@,
                    tool_grants == w.tools.map_values(
                        |v: Seq<char>| grant_of(w.key, w.path, "tool"@, v),
                    ),
                    r.deep_view() == first + tool_grants.take(k as int),
                decreases workspace.grants.allowed_tools.len() - k,
            {
                let ghost now = r.deep_view();
                let g = grant(
                    workspace.key.as_str(),
                    workspace.grants.path.as_str(),
                    "tool",
                    workspace.grants.allowed_tools[k].as_str(),
                );
                r.push(g);
                assert(r.deep_view() =~= now.push(g@));
                assert(tool_grants[k as int] == g@);
                assert(r.deep_view() =~= first + tool_grants.take(k + 1));
                k += 1;
            }
            assert(tool_grants.take(k as int) =~= tool_grants);
            let ghost second = r.deep_view();
            k = 0;
            assert(second + command_grants.take(0) =~= second);
            while k < workspace.grants.allowed_commands.len()
                invariant
                    k <= workspace.grants.allowed_commands@.len(),
                    w == workspace@,
                    command_grants == w.commands.map_values(
                        |v: Seq<char>| grant_of(w.key, w.path, "command"@, v),
                    ),
                    r.deep_view() == second + command_grants.take(k as int),
                decreases workspace.grants.allowed_commands.len() - k,
            {
                let ghost now = r.deep_view();
                let g = grant(
                    workspace.key.as_str(),
                    workspace.grants.path.as_str(),
                    "command",
                    workspace.grants.allowed_commands[k].as_str(),
                );
                r.push(g);
                assert(r.deep_view() =~= now.push(g@));
                assert(command_grants[k as int] == g@);
                assert(r.deep_view() =~= second + command_grants.take(k + 1));
                k += 1;
            }
            assert(command_grants.take(k as int) =~= command_grants);
            assert(r.deep_view() =~= first + workspace_grants(w));
            i += 1;
        }
        assert(all.take(i as int) =~= all);
        r
    }

    /// All grants, by workspace and value.
    pub fn grants(&self) -> (r: Vec<StoredPermissionGrant>)
        ensures
            r.deep_view() == sorted_grants(all_grants(self.workspaces.deep_view())),
    {
        let list = self.list_grants();
        let ghost views = list.deep_view();
        proof {
            grant_order_is_total(views);
        }
        let before = |i: usize, j: usize| -> (b: bool)
            requires
                i < list@.len(),
                j < list@.len(),
            ensures
                b == grant_order(list.deep_view())(i as int, j as int),
            {
                let a = &list[i];
                let c = &list[j];
                assert(list.deep_view()[i as int] == a@ && list.deep_view()[j as int] == c@);
                if !same(a.workspace_path.as_str(), c.workspace_path.as_str()) {
                    text_before(a.workspace_path.as_str(), c.workspace_path.as_str())
                } else if !same(a.value.as_str(), c.value.as_str()) {
                    text_before(a.value.as_str(), c.value.as_str())
                } else {
                    i <= j
                }
            };
        let order = sort_indices(list.len(), before, Ghost(grant_order(views)));
        let mut r: Vec<StoredPermissionGrant> = Vec::new();
        let mut k: usize = 0;
        while k < order.len()
            invariant
                k <= order@.len(),
                order@.len() == list@.len(),
                views == list.deep_view(),
                forall|q: int| 0 <= q < order@.len() ==> #[trigger] order@[q] < list@.len(),
                order@.map_values(|i: usize| i as int) == ordered(views.len(), grant_order(views)),
                r@.len() == k,
                forall|q: int| 0 <= q < k ==> (#[trigger] r@[q])@ == sorted_grants(views)[q],
            decreases order.len() - k,
        {
            assert(ordered(views.len(), grant_order(views))[k as int] == order@[k as int] as int);
            assert(sorted_grants(views)[k as int] == views[order@[k as int] as int]);
            r.push(list[order[k]].clone());
            k += 1;
        }
        assert(r.deep_view() =~= sorted_grants(views));
        r
    }

    /// Hands out the warnings.
    pub fn take_warnings(&mut self) -> (r: Vec<String>)
        ensures
            r == old(self).warnings,
            final(self).warnings@.len() == 0,
            final(self).config == old(self).config,
            final(self).dangerous == old(self).dangerous,
            final(self).key == old(self).key,
            final(self).root == old(self).root,
            final(self).workspaces == old(self).workspaces,
    {
        let mut r: Vec<String> = Vec::new();
        core::mem::swap(&mut self.warnings, &mut r);
        r
    }
}

/// What the user answered to the question whether a tool may run.
#[derive(Debug, Clone, Copy, PartialEq, Eq, Structural)]
pub enum TerminalAnswer {
    Allow,
    Always,
    Deny,
}

/// What a line that the user typed answers.
pub open spec fn answer_in(line: Seq<char>) -> TerminalAnswer {
    let word = ascii_lower(trimmed(line));
    if word == "y"@ || word == "yes"@ {
        TerminalAnswer::Allow
    } else if word == "a"@ || word == "always"@ {
        TerminalAnswer::Always
    } else {
        TerminalAnswer::Deny
    }
}

/// What a line that the user typed answers.
pub fn terminal_answer(line: &str) -> (r: TerminalAnswer)
    ensures
        r == answer_in(line@),
{
    let word = lower_ascii(trim(line).as_str());
    if same(word.as_str(), "y") || same(word.as_str(), "yes") {
        TerminalAnswer::Allow
    } else if same(word.as_str(), "a") || same(word.as_str(), "always") {
        TerminalAnswer::Always
    } else {
        TerminalAnswer::Deny
    }
}

// ---------------------------------------------------------------------------------------------
// Laws
// ---------------------------------------------------------------------------------------------

/// A tool that the settings deny does not run, whatever else allows it; and only the flag on the
/// command line lets permissions be skipped.
pub proof fn denied_tools_do_not_run(
    config: RoninConfig,
    dangerous: bool,
    key: Seq<char>,
    all: Seq<WorkspaceView>,
    kind: AgentToolKind,
    name: Seq<char>,
    described: Option<Seq<char>>,
)
    ensures
        config.permission_mode != PermissionMode::Yolo && listed(texts(config.denied_tools@), name)
            ==> decision(config, dangerous, key, all, kind, name, described) == Some(false),
        config.permission_mode == PermissionMode::Yolo ==> decision(
            config,
            dangerous,
            key,
            all,
            kind,
            name,
            described,
        ) == Some(dangerous),
{
}

/// A command that the settings deny does not run, whatever else allows it.
pub proof fn denied_commands_do_not_run(
    config: RoninConfig,
    dangerous: bool,
    key: Seq<char>,
    all: Seq<WorkspaceView>,
    name: Seq<char>,
    described: Seq<char>,
)
    requires
        config.permission_mode != PermissionMode::Yolo,
        rules_cover(normalized(described), texts(config.denied_commands@)),
    ensures
        decision(config, dangerous, key, all, AgentToolKind::Shell, name, Some(described)) == Some(
            false,
        ),
{
}

/// In plan mode nothing is changed or run that the settings or the user did not allow.
pub proof fn plan_mode_changes_nothing(
    config: RoninConfig,
    dangerous: bool,
    key: Seq<char>,
    all: Seq<WorkspaceView>,
    kind: AgentToolKind,
    name: Seq<char>,
    described: Seq<char>,
)
    requires
        config.permission_mode == PermissionMode::Plan,
        kind == AgentToolKind::Edit || kind == AgentToolKind::Shell,
        !listed(texts(config.allowed_tools@), name),
        kind == AgentToolKind::Shell ==> !rules_cover(
            normalized(described),
            texts(config.allowed_commands@),
        ),
        !granted(
            all,
            key,
            kind,
            name,
            if kind == AgentToolKind::Shell {
                Some(normalized(described))
            } else {
                None
            },
        ),
    ensures
        decision(config, dangerous, key, all, kind, name, Some(described)) == Some(false),
{
}

/// What was granted in a workspace is granted there.
pub proof fn grants_are_remembered(
    all: Seq<WorkspaceView>,
    key: Seq<char>,
    root: Seq<char>,
    kind: AgentToolKind,
    name: Seq<char>,
    command: Seq<char>,
)
    requires
        kind == AgentToolKind::Edit || kind == AgentToolKind::Shell,
    ensures
        granted(persisted(all, key, root, kind, name, command), key, kind, name, Some(command)),
{
    let after = persisted(all, key, root, kind, name, command);
    let base = with_workspace(all, key, root);
    let at = workspace_index(all, key, 0);
    workspace_index_bounds(all, key, 0);
    workspace_index_bounds(after, key, 0);
    assert(after[at].key == key);
    assert forall|k: int| 0 <= k < at implies (#[trigger] after[k]).key != key by {
        assert(after[k] == all[k]);
    }
    let found = workspace_index(after, key, 0);
    assert(found == at) by {
        if found < at {
            assert(after[found].key == key);
        } else if found > at {
            assert(after[at].key != key);
        }
    }
    let w = base[at];
    if kind == AgentToolKind::Edit {
        let list = with_text(w.tools, name);
        if !listed(w.tools, name) {
            assert(list[w.tools.len() as int] == name);
        }
        assert(list.contains(name));
    } else {
        let list = with_text(w.commands, command);
        if !listed(w.commands, command) {
            assert(list[w.commands.len() as int] == command);
        }
        assert(list.contains(command));
    }
}

/// What was granted runs without a question, in every mode but the one that skips permissions and
/// unless the settings deny it.
pub proof fn granted_calls_run(
    config: RoninConfig,
    dangerous: bool,
    key: Seq<char>,
    root: Seq<char>,
    all: Seq<WorkspaceView>,
    kind: AgentToolKind,
    name: Seq<char>,
    described: Seq<char>,
)
    requires
        kind == AgentToolKind::Edit || kind == AgentToolKind::Shell,
        config.permission_mode != PermissionMode::Yolo,
        !listed(texts(config.denied_tools@), name),
        kind == AgentToolKind::Shell ==> !rules_cover(
            normalized(described),
            texts(config.denied_commands@),
        ),
    ensures
        ({
            let after = persisted(all, key, root, kind, name, normalized(described));
            decision(config, dangerous, key, after, kind, name, Some(described)) == Some(true)
        }),
{
    grants_are_remembered(all, key, root, kind, name, normalized(described));
}

/// Granting the same a second time changes nothing.
pub proof fn granting_twice_is_granting_once(
    all: Seq<WorkspaceView>,
    key: Seq<char>,
    root: Seq<char>,
    kind: AgentToolKind,
    name: Seq<char>,
    command: Seq<char>,
)
    ensures
        ({
            let once = persisted(all, key, root, kind, name, command);
            persisted(once, key, root, kind, name, command) == once
        }),
{
    let once = persisted(all, key, root, kind, name, command);
    let at = workspace_index(all, key, 0);
    workspace_index_bounds(all, key, 0);
    workspace_index_bounds(once, key, 0);
    assert(once[at].key == key);
    assert forall|k: int| 0 <= k < at implies (#[trigger] once[k]).key != key by {
        assert(once[k] == all[k]);
    }
    let found = workspace_index(once, key, 0);
    assert(found == at) by {
        if found < at {
            assert(once[found].key == key);
        } else if found > at {
            assert(once[at].key != key);
        }
    }
    let w = with_workspace(all, key, root)[at];
    if kind == AgentToolKind::Edit || kind == AgentToolKind::Shell {
        grants_are_remembered(all, key, root, kind, name, command);
    }
    assert(grant_added(once[at], kind, name, command) =~= once[at]);
    assert(persisted(once, key, root, kind, name, command) =~= once);
}

proof fn kept_values_have_no_grant(
    key: Seq<char>,
    kind: Seq<char>,
    values: Seq<Seq<char>>,
    id: Seq<char>,
)
    ensures
        !value_has_grant(key, kind, kept_values(key, kind, values, id), id),
    decreases values.len(),
{
    if values.len() > 0 {
        let rest = kept_values(key, kind, values.drop_last(), id);
        let all = kept_values(key, kind, values, id);
        kept_values_have_no_grant(key, kind, values.drop_last(), id);
        assert forall|i: int| 0 <= i < all.len() implies id_of_grant(
            key,
            kind,
            #[trigger] all[i],
        ) != id by {
            if i < rest.len() {
                assert(all[i] == rest[i]);
            }
        }
    }
}

/// After a grant was taken back there is none of its id, and taking it back again finds nothing.
pub proof fn revoked_grants_are_gone(all: Seq<WorkspaceView>, id: Seq<char>, i: int)
    requires
        0 <= i < all.len(),
    ensures
        !holds_grant(revoked(all, id)[i], id),
{
    let w = all[i];
    kept_values_have_no_grant(w.key, "tool"@, w.tools, id);
    kept_values_have_no_grant(w.key, "command"@, w.commands, id);
}

/// What was taken back is granted no more.
pub proof fn revoked_calls_are_not_granted(
    all: Seq<WorkspaceView>,
    key: Seq<char>,
    name: Seq<char>,
    command: Seq<char>,
)
    ensures
        !granted(
            revoked(all, id_of_grant(key, "tool"@, name)),
            key,
            AgentToolKind::Edit,
            name,
            None,
        ),
        !granted(
            revoked(all, id_of_grant(key, "command"@, command)),
            key,
            AgentToolKind::Shell,
            name,
            Some(command),
        ),
{
    let tool = id_of_grant(key, "tool"@, name);
    let run = id_of_grant(key, "command"@, command);
    workspace_index_bounds(revoked(all, tool), key, 0);
    workspace_index_bounds(revoked(all, run), key, 0);
    let i = workspace_index(revoked(all, tool), key, 0);
    if i < all.len() {
        revoked_grants_are_gone(all, tool, i);
        let left = revoked(all, tool)[i].tools;
        if listed(left, name) {
            let k = choose|k: int| 0 <= k < left.len() && left[k] == name;
            assert(id_of_grant(key, "tool"@, left[k]) == tool);
        }
    }
    let j = workspace_index(revoked(all, run), key, 0);
    if j < all.len() {
        revoked_grants_are_gone(all, run, j);
        let left = revoked(all, run)[j].commands;
        if listed(left, command) {
            let k = choose|k: int| 0 <= k < left.len() && left[k] == command;
            assert(id_of_grant(key, "command"@, left[k]) == run);
        }
    }
}

/// The grants of other ids.
pub open spec fn other_grants(list: Seq<GrantView>, id: Seq<char>) -> Seq<GrantView>
    decreases list.len(),
{
    if list.len() == 0 {
        Seq::empty()
    } else if list.last().id == id {
        other_grants(list.drop_last(), id)
    } else {
        other_grants(list.drop_last(), id).push(list.last())
    }
}

proof fn other_grants_append(a: Seq<GrantView>, b: Seq<GrantView>, id: Seq<char>)
    ensures
        other_grants(a + b, id) == other_grants(a, id) + other_grants(b, id),
    decreases b.len(),
{
    if b.len() == 0 {
        assert(a + b =~= a);
        assert(other_grants(a, id) + other_grants(b, id) =~= other_grants(a, id));
    } else {
        assert((a + b).drop_last() =~= a + b.drop_last());
        assert((a + b).last() == b.last());
        other_grants_append(a, b.drop_last(), id);
        assert(other_grants(a + b, id) =~= other_grants(a, id) + other_grants(b, id));
    }
}

proof fn kept_values_are_other_grants(
    key: Seq<char>,
    path: Seq<char>,
    kind: Seq<char>,
    values: Seq<Seq<char>>,
    id: Seq<char>,
)
    ensures
        kept_values(key, kind, values, id).map_values(
            |v: Seq<char>| grant_of(key, path, kind, v),
        ) == other_grants(values.map_values(|v: Seq<char>| grant_of(key, path, kind, v)), id),
    decreases values.len(),
{
    let f = |v: Seq<char>| grant_of(key, path, kind, v);
    let all = values.map_values(f);
    if values.len() == 0 {
        assert(kept_values(key, kind, values, id).map_values(f) =~= other_grants(all, id));
    } else {
        kept_values_are_other_grants(key, path, kind, values.drop_last(), id);
        assert(all.drop_last() =~= values.drop_last().map_values(f));
        assert(all.last() == f(values.last()));
        assert(kept_values(key, kind, values, id).map_values(f) =~= other_grants(all, id));
    }
}

/// After a grant was taken back, exactly the others are left.
pub proof fn revoking_leaves_the_other_grants(all: Seq<WorkspaceView>, id: Seq<char>)
    ensures
        all_grants(revoked(all, id)) == other_grants(all_grants(all), id),
    decreases all.len(),
{
    if all.len() == 0 {
        assert(all_grants(revoked(all, id)) =~= other_grants(all_grants(all), id));
    } else {
        let before = all.drop_last();
        let w = all.last();
        revoking_leaves_the_other_grants(before, id);
        assert(revoked(all, id).drop_last() =~= revoked(before, id));
        assert(revoked(all, id).last() == without_grant(w, id));
        let tools = w.tools.map_values(|v: Seq<char>| grant_of(w.key, w.path, "tool"@, v));
        let commands = w.commands.map_values(|v: Seq<char>| grant_of(w.key, w.path, "command"@, v));
        kept_values_are_other_grants(w.key, w.path, "tool"@, w.tools, id);
        kept_values_are_other_grants(w.key, w.path, "command"@, w.commands, id);
        other_grants_append(tools, commands, id);
        other_grants_append(all_grants(before), workspace_grants(w), id);
        assert(workspace_grants(without_grant(w, id)) =~= other_grants(workspace_grants(w), id));
        assert(all_grants(revoked(all, id)) =~= other_grants(all_grants(all), id));
    }
}

/// A text is listed where it is one of the texts, letter for letter.
pub proof fn listed_texts_are_in_the_list(list: Seq<String>, text: Seq<char>)
    ensures
        listed(texts(list), text) <==> exists|i: int|
            0 <= i < list.len() && (#[trigger] list[i])@ == text,
{
    let all = texts(list);
    if listed(all, text) {
        let i = choose|i: int| 0 <= i < all.len() && all[i] == text;
        assert(list[i]@ == text);
    }
    if exists|i: int| 0 <= i < list.len() && (#[trigger] list[i])@ == text {
        let i = choose|i: int| 0 <= i < list.len() && (#[trigger] list[i])@ == text;
        assert(all[i] == text);
    }
}

/// A rule covers the commands that begin with its words, however the words are spaced; a rule
/// without words covers none.
pub proof fn rules_cover_by_their_words(command: Seq<char>, rules: Seq<Seq<char>>)
    ensures
        rules_cover(command, rules) <==> exists|i: int|
            0 <= i < rules.len() && words(#[trigger] rules[i]).len() > 0 && words(
                rules[i],
            ).is_prefix_of(words(command)),
{
    assert forall|i: int| 0 <= i < rules.len() implies rule_covers(
        normalized(command),
        normalized(#[trigger] rules[i]),
    ) == (words(rules[i]).len() > 0 && words(rules[i]).is_prefix_of(words(command))) by {
        words_are_words(command);
        words_are_words(rules[i]);
        if words(rules[i]).len() > 0 {
            words_begin_by_words(words(rules[i]), words(command));
        }
    }
}

/// Whether a described call is one of a command that begins with the words of one of some rules.
pub open spec fn runs_under(kind: AgentToolKind, described: Seq<char>, rules: Seq<String>) -> bool {
    kind == AgentToolKind::Shell && exists|i: int|
        0 <= i < rules.len() && words((#[trigger] rules[i])@).len() > 0 && words(
            rules[i]@,
        ).is_prefix_of(words(described))
}

proof fn runs_under_rules(kind: AgentToolKind, described: Seq<char>, rules: Seq<String>)
    requires
        kind == AgentToolKind::Shell,
    ensures
        runs_under(kind, described, rules) == rules_cover(normalized(described), texts(rules)),
{
    normalizing_twice_is_normalizing_once(described);
    rules_cover_by_their_words(normalized(described), texts(rules));
    let all = texts(rules);
    if rules_cover(normalized(described), all) {
        let i = choose|i: int|
            0 <= i < all.len() && words(#[trigger] all[i]).len() > 0 && words(all[i]).is_prefix_of(
                words(normalized(described)),
            );
        assert(words(rules[i]@).len() > 0);
    }
    if runs_under(kind, described, rules) {
        let i = choose|i: int|
            0 <= i < rules.len() && words((#[trigger] rules[i])@).len() > 0 && words(
                rules[i]@,
            ).is_prefix_of(words(described));
        assert(words(all[i]).len() > 0);
    }
}

/// A call runs without a question where the settings allow its tool by name or its command by a
/// rule, in every mode but the one that skips permissions and unless the settings deny its tool or
/// its command; and denied it is in those modes whatever allows it.
pub proof fn the_settings_allow_and_deny(
    config: RoninConfig,
    dangerous: bool,
    key: Seq<char>,
    all: Seq<WorkspaceView>,
    kind: AgentToolKind,
    name: Seq<char>,
    described: Seq<char>,
)
    requires
        config.permission_mode != PermissionMode::Yolo,
    ensures
        ({
            let given = decision(config, dangerous, key, all, kind, name, Some(described));
            let denied = (exists|i: int|
                0 <= i < config.denied_tools@.len() && (#[trigger] config.denied_tools@[i])@
                    == name) || kind != AgentToolKind::Read && runs_under(
                kind,
                described,
                config.denied_commands@,
            );
            let allowed = (exists|i: int|
                0 <= i < config.allowed_tools@.len() && (#[trigger] config.allowed_tools@[i])@
                    == name) || runs_under(kind, described, config.allowed_commands@);
            &&& denied ==> given == Some(false)
            &&& !denied && allowed ==> given == Some(true)
            &&& !denied && kind == AgentToolKind::Read ==> given == Some(true)
            &&& given == Some(false) ==> denied || config.permission_mode == PermissionMode::Plan
                && !allowed && kind != AgentToolKind::Read
        }),
{
    listed_texts_are_in_the_list(config.denied_tools@, name);
    listed_texts_are_in_the_list(config.allowed_tools@, name);
    if kind == AgentToolKind::Shell {
        runs_under_rules(kind, described, config.denied_commands@);
        runs_under_rules(kind, described, config.allowed_commands@);
    }
}

/// What the mode decides of an edit or a command that nothing else allows or denies: planning
/// refuses, accepting edits lets edits run, the automatic mode lets all run, and otherwise the user
/// is asked.
pub proof fn modes_decide_the_rest(
    config: RoninConfig,
    dangerous: bool,
    key: Seq<char>,
    all: Seq<WorkspaceView>,
    kind: AgentToolKind,
    name: Seq<char>,
    described: Seq<char>,
)
    requires
        kind != AgentToolKind::Read,
        forall|i: int|
            0 <= i < config.denied_tools@.len() ==> (#[trigger] config.denied_tools@[i])@ != name,
        forall|i: int|
            0 <= i < config.allowed_tools@.len() ==> (#[trigger] config.allowed_tools@[i])@ != name,
        !runs_under(kind, described, config.denied_commands@),
        !runs_under(kind, described, config.allowed_commands@),
        !granted(
            all,
            key,
            kind,
            name,
            if kind == AgentToolKind::Shell {
                Some(normalized(described))
            } else {
                None
            },
        ),
    ensures
        ({
            let given = decision(config, dangerous, key, all, kind, name, Some(described));
            match config.permission_mode {
                PermissionMode::Plan => given == Some(false),
                PermissionMode::Default => given is None,
                PermissionMode::AcceptEdits => if kind == AgentToolKind::Edit {
                    given == Some(true)
                } else {
                    given is None
                },
                PermissionMode::Auto => given == Some(true),
                PermissionMode::Yolo => given == Some(dangerous),
            }
        }),
{
    listed_texts_are_in_the_list(config.denied_tools@, name);
    listed_texts_are_in_the_list(config.allowed_tools@, name);
    if kind == AgentToolKind::Shell {
        runs_under_rules(kind, described, config.denied_commands@);
        runs_under_rules(kind, described, config.allowed_commands@);
    }
}

/// Of a call that nothing describes the settings decide only the denial of its tool; a tool that
/// reads runs, and for another the user is asked.
pub proof fn undescribed_calls_are_asked_for(
    config: RoninConfig,
    dangerous: bool,
    key: Seq<char>,
    all: Seq<WorkspaceView>,
    kind: AgentToolKind,
    name: Seq<char>,
)
    requires
        config.permission_mode != PermissionMode::Yolo,
        forall|i: int|
            0 <= i < config.denied_tools@.len() ==> (#[trigger] config.denied_tools@[i])@ != name,
    ensures
        decision(config, dangerous, key, all, kind, name, None) == if kind == AgentToolKind::Read {
            Some(true)
        } else {
            None
        },
{
    listed_texts_are_in_the_list(config.denied_tools@, name);
}

/// Granted is what the workspace of the key has on its list: the tool of an edit, or the command of
/// any other call.
pub proof fn granted_means_on_the_list(
    all: Seq<WorkspaceView>,
    key: Seq<char>,
    kind: AgentToolKind,
    name: Seq<char>,
    command: Option<Seq<char>>,
)
    requires
        distinct_workspaces(all),
    ensures
        granted(all, key, kind, name, command) <==> exists|i: int|
            {
                &&& 0 <= i < all.len()
                &&& (#[trigger] all[i]).key == key
                &&& if kind == AgentToolKind::Edit {
                    all[i].tools.contains(name)
                } else {
                    command is Some && all[i].commands.contains(command->0)
                }
            },
{
    workspace_index_bounds(all, key, 0);
    let at = workspace_index(all, key, 0);
    if granted(all, key, kind, name, command) {
        assert(all[at].key == key);
    }
    if exists|i: int| 0 <= i < all.len() && (#[trigger] all[i]).key == key {
        let i = choose|i: int| 0 <= i < all.len() && (#[trigger] all[i]).key == key;
        assert(i == at) by {
            if at < i {
                assert(all[at].key != all[i].key);
            }
        }
    }
}

/// Granting grants what was asked for and nothing else: neither in another workspace nor another
/// tool or command.
pub proof fn granting_grants_nothing_else(
    all: Seq<WorkspaceView>,
    key: Seq<char>,
    root: Seq<char>,
    kind: AgentToolKind,
    name: Seq<char>,
    command: Seq<char>,
    other: Seq<char>,
    asked: AgentToolKind,
    tool: Seq<char>,
    run: Option<Seq<char>>,
)
    requires
        distinct_workspaces(all),
        other != key || (asked == AgentToolKind::Edit && !(kind == AgentToolKind::Edit && tool
            == name)) || (asked != AgentToolKind::Edit && !(kind == AgentToolKind::Shell && run
            == Some(command))),
    ensures
        granted(persisted(all, key, root, kind, name, command), other, asked, tool, run) == granted(
            all,
            other,
            asked,
            tool,
            run,
        ),
{
    let after = persisted(all, key, root, kind, name, command);
    let base = with_workspace(all, key, root);
    let at = workspace_index(all, key, 0);
    workspace_index_bounds(all, key, 0);
    workspace_index_bounds(all, other, 0);
    workspace_index_bounds(after, other, 0);
    let i = workspace_index(all, other, 0);
    let j = workspace_index(after, other, 0);
    assert forall|k: int| 0 <= k < after.len() implies (#[trigger] after[k]).key == base[k].key by {}
    if i < all.len() {
        assert(after[i].key == other);
        assert(j <= i);
        if j < i {
            assert(after[j].key == other);
            assert(all[j].key == other);
        }
        assert(i == j);
        if i == at {
            let w = all[at];
            let t = with_text(w.tools, name);
            let c = with_text(w.commands, command);
            assert(t.contains(tool) == (w.tools.contains(tool) || tool == name)) by {
                contains_with_text(w.tools, name, tool);
            }
            if run is Some {
                contains_with_text(w.commands, command, run->0);
            }
        }
    } else if j < after.len() {
        assert(after[j].key == other);
        if j < all.len() {
            assert(all[j].key == other);
        } else {
            assert(other == key);
            assert(base[j].tools.len() == 0 && base[j].commands.len() == 0);
            contains_with_text(Seq::empty(), name, tool);
            if run is Some {
                contains_with_text(Seq::empty(), command, run->0);
            }
        }
    }
}

proof fn contains_with_text(list: Seq<Seq<char>>, text: Seq<char>, x: Seq<char>)
    ensures
        with_text(list, text).contains(x) <==> list.contains(x) || x == text,
{
    let all = with_text(list, text);
    if list.contains(x) {
        let i = choose|i: int| 0 <= i < list.len() && list[i] == x;
        assert(all[i] == x);
    }
    if x == text && !list.contains(text) {
        assert(all[list.len() as int] == x);
    }
}

/// Only a yes lets a call run and only an always lets its like run, whole or by the first letter,
/// whatever the case and the white space around it; every other line denies.
pub proof fn only_a_yes_lets_a_call_run(line: Seq<char>)
    ensures
        answer_in(line) == TerminalAnswer::Allow <==> ascii_lower(trimmed(line)) == "y"@
            || ascii_lower(trimmed(line)) == "yes"@,
        answer_in(line) == TerminalAnswer::Always <==> ascii_lower(trimmed(line)) == "a"@
            || ascii_lower(trimmed(line)) == "always"@,
        trimmed(line).len() == 0 ==> answer_in(line) == TerminalAnswer::Deny,
{
    reveal_strlit("y");
    reveal_strlit("yes");
    reveal_strlit("a");
    reveal_strlit("always");
    assert("y"@[0] != "a"@[0]);
    assert("yes"@[0] != "always"@[0]);
    assert(ascii_lower(trimmed(line)).len() == trimmed(line).len());
}

/// Whether a grant is one of a tool or a command on the list of a workspace.
pub open spec fn is_grant_of(w: WorkspaceView, g: GrantView) -> bool {
    &&& g.workspace_path == w.path
    &&& g.id == id_of_grant(w.key, g.kind, g.value)
    &&& g.kind == "tool"@ && w.tools.contains(g.value) || g.kind == "command"@
        && w.commands.contains(g.value)
}

proof fn grants_of_a_workspace_are_listed(w: WorkspaceView, g: GrantView)
    ensures
        workspace_grants(w).contains(g) <==> is_grant_of(w, g),
{
    let mine = workspace_grants(w);
    let n = w.tools.len() as int;
    if mine.contains(g) {
        let q = choose|q: int| 0 <= q < mine.len() && mine[q] == g;
        if q < n {
            assert(w.tools[q] == g.value);
        } else {
            assert(w.commands[q - n] == g.value);
        }
    }
    if is_grant_of(w, g) {
        if g.kind == "tool"@ && w.tools.contains(g.value) {
            let q = choose|q: int| 0 <= q < n && w.tools[q] == g.value;
            assert(mine[q] == g);
        } else {
            let q = choose|q: int| 0 <= q < w.commands.len() && w.commands[q] == g.value;
            assert(mine[n + q] == g);
        }
    }
}

proof fn parts_hold_what_the_whole_holds(a: Seq<GrantView>, b: Seq<GrantView>, g: GrantView)
    ensures
        (a + b).contains(g) <==> a.contains(g) || b.contains(g),
{
    let all = a + b;
    if all.contains(g) {
        let k = choose|k: int| 0 <= k < all.len() && all[k] == g;
        if k < a.len() {
            assert(a[k] == g);
        } else {
            assert(b[k - a.len()] == g);
        }
    }
    if a.contains(g) {
        let k = choose|k: int| 0 <= k < a.len() && a[k] == g;
        assert(all[k] == g);
    }
    if b.contains(g) {
        let k = choose|k: int| 0 <= k < b.len() && b[k] == g;
        assert(all[a.len() + k] == g);
    }
}

/// Each tool and each command on the list of a workspace is listed as a grant, and nothing else is.
#[verifier::spinoff_prover]
pub proof fn every_grant_is_listed(all: Seq<WorkspaceView>, g: GrantView)
    ensures
        all_grants(all).contains(g) <==> exists|i: int|
            0 <= i < all.len() && is_grant_of(#[trigger] all[i], g),
    decreases all.len(),
{
    if all.len() > 0 {
        let rest = all.drop_last();
        every_grant_is_listed(rest, g);
        grants_of_a_workspace_are_listed(all.last(), g);
        parts_hold_what_the_whole_holds(all_grants(rest), workspace_grants(all.last()), g);
        assert(all.last() == all[all.len() - 1]);
        if all_grants(rest).contains(g) {
            let i = choose|i: int| 0 <= i < rest.len() && is_grant_of(#[trigger] rest[i], g);
            assert(is_grant_of(all[i], g));
        }
        if exists|i: int| 0 <= i < all.len() && is_grant_of(#[trigger] all[i], g) {
            let i = choose|i: int| 0 <= i < all.len() && is_grant_of(#[trigger] all[i], g);
            if i < rest.len() {
                assert(is_grant_of(rest[i], g));
            }
        }
    }
}

/// Grants are listed by the path of their workspace and then by their value, each once.
pub proof fn grants_are_listed_in_order(list: Seq<GrantView>)
    ensures
        sorted_grants(list).to_multiset() == list.to_multiset(),
        sorted_grants(list).len() == list.len(),
        forall|i: int, j: int|
            0 <= i < j < list.len() ==> {
                let a = #[trigger] sorted_grants(list)[i];
                let b = #[trigger] sorted_grants(list)[j];
                text_leq(a.workspace_path, b.workspace_path) && (a.workspace_path
                    == b.workspace_path ==> text_leq(a.value, b.value))
            },
{
    let leq = grant_order(list);
    grant_order_is_total(list);
    ordered_is_sorted(list.len(), leq);
    let o = ordered(list.len(), leq);
    let r = sorted_grants(list);
    let f = |i: int| list[i];
    map_keeps_multisets(o, indices(list.len()), f);
    assert(indices(list.len()).map_values(f) =~= list);
    assert(o.map_values(f) =~= r);
    assert forall|i: int, j: int| 0 <= i < j < list.len() implies {
        let a = #[trigger] r[i];
        let b = #[trigger] r[j];
        text_leq(a.workspace_path, b.workspace_path) && (a.workspace_path == b.workspace_path
            ==> text_leq(a.value, b.value))
    } by {
        assert(leq(o[i], o[j]));
        let a = r[i];
        let b = r[j];
        text_leq_total(a.workspace_path, a.workspace_path);
        text_leq_total(a.value, a.value);
    }
}

/// The values that are kept when a grant is revoked are those of other ids, in their order.
pub proof fn values_of_other_ids_are_kept(
    key: Seq<char>,
    kind: Seq<char>,
    values: Seq<Seq<char>>,
    id: Seq<char>,
)
    ensures
        kept_values(key, kind, values, id) == values.filter(
            |value: Seq<char>| id_of_grant(key, kind, value) != id,
        ),
    decreases values.len(),
{
    reveal(Seq::filter);
    if values.len() > 0 {
        values_of_other_ids_are_kept(key, kind, values.drop_last(), id);
    }
}

} // verus!
