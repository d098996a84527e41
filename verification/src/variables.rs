//! The tables of variables: globals, one table per group, one per environment.
use crate::model::{plain_variable, Ulid, VarScope, Variable, VariableView};
use crate::strings::{same_text, views};
use crate::vars::{layer_value, Layers, VarContext};
use vstd::prelude::*;

verus! {

/// A named table of variables of which at most one is in use at a time.
#[derive(Debug, PartialEq, Eq)]
pub struct Environment {
    pub id: Ulid,
    pub name: String,
    pub variables: Vec<Variable>,
}

pub struct EnvironmentView {
    pub id: Ulid,
    pub name: Seq<char>,
    pub variables: Seq<VariableView>,
}

impl View for Environment {
    type V = EnvironmentView;

    open spec fn view(&self) -> EnvironmentView {
        EnvironmentView { id: self.id, name: self.name@, variables: views(self.variables@) }
    }
}

impl Clone for Environment {
    fn clone(&self) -> (r: Environment)
        ensures
            r@ == self@,
    {
        let variables = self.variables.clone();
        proof {
            assert(views(variables@) =~= views(self.variables@));
        }
        Environment { id: self.id, name: self.name.clone(), variables }
    }
}

impl Environment {
    /// An empty environment under a new identifier.
    pub fn new(name: &str) -> (r: Environment)
        ensures
            r.name@ == name@,
            r.variables@.len() == 0,
    {
        Environment { id: Ulid::generate(), name: name.to_owned(), variables: Vec::new() }
    }
}

/// The variables of one group.
#[derive(Debug, PartialEq, Eq)]
pub struct GroupVars {
    pub name: String,
    pub variables: Vec<Variable>,
}

pub struct GroupVarsView {
    pub name: Seq<char>,
    pub variables: Seq<VariableView>,
}

impl View for GroupVars {
    type V = GroupVarsView;

    open spec fn view(&self) -> GroupVarsView {
        GroupVarsView { name: self.name@, variables: views(self.variables@) }
    }
}

impl Clone for GroupVars {
    fn clone(&self) -> (r: GroupVars)
        ensures
            r@ == self@,
    {
        let variables = self.variables.clone();
        proof {
            assert(views(variables@) =~= views(self.variables@));
        }
        GroupVars { name: self.name.clone(), variables }
    }
}

/// All tables of variables.
#[derive(Debug, PartialEq, Eq)]
pub struct VariableSets {
    pub globals: Vec<Variable>,
    pub environments: Vec<Environment>,
    pub active_environment: Option<Ulid>,
    pub groups: Vec<GroupVars>,
}

#[verifier::ext_equal]
pub struct SetsView {
    pub globals: Seq<VariableView>,
    pub environments: Seq<EnvironmentView>,
    pub active: Option<Ulid>,
    pub groups: Seq<GroupVarsView>,
}

impl View for VariableSets {
    type V = SetsView;

    open spec fn view(&self) -> SetsView {
        SetsView {
            globals: views(self.globals@),
            environments: views(self.environments@),
            active: self.active_environment,
            groups: views(self.groups@),
        }
    }
}

impl Clone for VariableSets {
    fn clone(&self) -> (r: VariableSets)
        ensures
            r@ == self@,
    {
        let globals = self.globals.clone();
        let environments = self.environments.clone();
        let groups = self.groups.clone();
        proof {
            assert(views(globals@) =~= views(self.globals@));
            assert(views(environments@) =~= views(self.environments@));
            assert(views(groups@) =~= views(self.groups@));
        }
        VariableSets {
            globals,
            environments,
            active_environment: self.active_environment,
            groups,
        }
    }
}

impl Default for VariableSets {
    fn default() -> (r: VariableSets)
        ensures
            r@ == (SetsView {
                globals: Seq::empty(),
                environments: Seq::empty(),
                active: None,
                groups: Seq::empty(),
            }),
    {
        let r = VariableSets {
            globals: Vec::new(),
            environments: Vec::new(),
            active_environment: None,
            groups: Vec::new(),
        };
        proof {
            assert(r@ =~= (SetsView {
                globals: Seq::empty(),
                environments: Seq::empty(),
                active: None,
                groups: Seq::empty(),
            }));
        }
        r
    }
}

/// The first environment with the identifier `id`, from offset `at` on.
pub open spec fn env_from(envs: Seq<EnvironmentView>, id: Option<Ulid>, at: int) -> Option<int>
    decreases envs.len() - at,
{
    if at < 0 || at >= envs.len() {
        None
    } else if Some(envs[at].id) == id {
        Some(at)
    } else {
        env_from(envs, id, at + 1)
    }
}

/// The first group named `name`, from offset `at` on.
pub open spec fn group_from(groups: Seq<GroupVarsView>, name: Seq<char>, at: int) -> Option<int>
    decreases groups.len() - at,
{
    if at < 0 || at >= groups.len() {
        None
    } else if groups[at].name == name {
        Some(at)
    } else {
        group_from(groups, name, at + 1)
    }
}

/// The variables of the active environment.
pub open spec fn env_layer(s: SetsView) -> Seq<VariableView> {
    match env_from(s.environments, s.active, 0) {
        Some(i) => s.environments[i].variables,
        None => Seq::empty(),
    }
}

/// The variables of a group; none where there is no group.
pub open spec fn group_layer(s: SetsView, group: Option<Seq<char>>) -> Seq<VariableView> {
    match group {
        None => Seq::empty(),
        Some(name) => match group_from(s.groups, name, 0) {
            Some(i) => s.groups[i].variables,
            None => Seq::empty(),
        },
    }
}

/// The layers that a request of `group` sees.
pub open spec fn layers_of(s: SetsView, group: Option<Seq<char>>) -> Layers {
    Layers { globals: s.globals, group: group_layer(s, group), env: env_layer(s) }
}

/// The offset of the entry that [`layer_value`] reads, from `at` on.
pub open spec fn entry_from(vars: Seq<VariableView>, key: Seq<char>, at: int) -> Option<int>
    decreases vars.len() - at,
{
    if at < 0 || at >= vars.len() {
        None
    } else if vars[at].enabled && vars[at].key == key {
        Some(at)
    } else {
        entry_from(vars, key, at + 1)
    }
}

/// A table after `key` was set to `value`: the entry that counts takes the value,
/// or a new one is added at the end.
pub open spec fn with_value(
    vars: Seq<VariableView>,
    key: Seq<char>,
    value: Seq<char>,
) -> Seq<VariableView> {
    match entry_from(vars, key, 0) {
        Some(i) => vars.update(i, VariableView { value, ..vars[i] }),
        None => vars.push(plain_variable(key, value)),
    }
}

/// The tables after `key` of `scope` was set to `value`; `None` where there is no
/// table to write to.
pub open spec fn sets_after(
    s: SetsView,
    scope: VarScope,
    group: Option<Seq<char>>,
    key: Seq<char>,
    value: Seq<char>,
) -> Option<SetsView> {
    match scope {
        VarScope::Global => Some(SetsView { globals: with_value(s.globals, key, value), ..s }),
        VarScope::Group => match group {
            None => None,
            Some(name) => match group_from(s.groups, name, 0) {
                Some(i) => Some(
                    SetsView {
                        groups: s.groups.update(
                            i,
                            GroupVarsView {
                                name: s.groups[i].name,
                                variables: with_value(s.groups[i].variables, key, value),
                            },
                        ),
                        ..s
                    },
                ),
                None => Some(
                    SetsView {
                        groups: s.groups.push(
                            GroupVarsView {
                                name,
                                variables: with_value(Seq::empty(), key, value),
                            },
                        ),
                        ..s
                    },
                ),
            },
        },
        VarScope::Environment => match env_from(s.environments, s.active, 0) {
            None => None,
            Some(i) => Some(
                SetsView {
                    environments: s.environments.update(
                        i,
                        EnvironmentView {
                            variables: with_value(s.environments[i].variables, key, value),
                            ..s.environments[i]
                        },
                    ),
                    ..s
                },
            ),
        },
    }
}

/// The layer of `scope`.
pub open spec fn scope_layer(
    s: SetsView,
    scope: VarScope,
    group: Option<Seq<char>>,
) -> Seq<VariableView> {
    match scope {
        VarScope::Global => s.globals,
        VarScope::Group => group_layer(s, group),
        VarScope::Environment => env_layer(s),
    }
}

proof fn lemma_entry_from(vars: Seq<VariableView>, key: Seq<char>, at: int)
    requires
        0 <= at <= vars.len(),
    ensures
        match entry_from(vars, key, at) {
            Some(i) => at <= i < vars.len() && vars[i].enabled && vars[i].key == key
                && forall|j: int|
                at <= j < i ==> !(#[trigger] vars[j].enabled && vars[j].key == key),
            None => forall|j: int|
                at <= j < vars.len() ==> !(#[trigger] vars[j].enabled && vars[j].key == key),
        },
    decreases vars.len() - at,
{
    if at < vars.len() && !(vars[at].enabled && vars[at].key == key) {
        lemma_entry_from(vars, key, at + 1);
    }
}

proof fn lemma_missing_value(vars: Seq<VariableView>, key: Seq<char>)
    requires
        forall|j: int|
            0 <= j < vars.len() ==> !(#[trigger] vars[j].enabled && vars[j].key == key),
    ensures
        layer_value(vars, key) is None,
    decreases vars.len(),
{
    if vars.len() > 0 {
        assert(!(vars[0].enabled && vars[0].key == key));
        assert forall|j: int| 0 <= j < vars.skip(1).len() implies !(#[trigger] vars.skip(
            1,
        )[j].enabled && vars.skip(1)[j].key == key) by {
            assert(vars.skip(1)[j] == vars[j + 1]);
        }
        lemma_missing_value(vars.skip(1), key);
    }
}

proof fn lemma_layer_value_at(vars: Seq<VariableView>, key: Seq<char>)
    ensures
        layer_value(vars, key) == match entry_from(vars, key, 0) {
            Some(i) => Some(vars[i].value),
            None => None,
        },
{
    lemma_entry_from(vars, key, 0);
    match entry_from(vars, key, 0) {
        Some(i) => {
            crate::vars::first_enabled_entry_wins(vars, key, i);
        },
        None => {
            lemma_missing_value(vars, key);
        },
    }
}

/// A table gives back what was set last, and other names are not affected.
pub proof fn set_value_is_read_back(
    vars: Seq<VariableView>,
    key: Seq<char>,
    value: Seq<char>,
    other: Seq<char>,
)
    requires
        other != key,
    ensures
        layer_value(with_value(vars, key, value), key) == Some(value),
        layer_value(with_value(vars, key, value), other) == layer_value(vars, other),
{
    let after = with_value(vars, key, value);
    lemma_entry_from(vars, key, 0);
    lemma_entry_from(vars, other, 0);
    lemma_layer_value_at(vars, other);
    lemma_layer_value_at(after, other);
    lemma_entry_from(after, other, 0);
    match entry_from(vars, key, 0) {
        Some(i) => {
            assert(after[i].enabled && after[i].key == key);
            crate::vars::first_enabled_entry_wins(after, key, i);
            assert(after[i].value == value);
        },
        None => {
            let i = vars.len() as int;
            assert(after[i].enabled && after[i].key == key);
            crate::vars::first_enabled_entry_wins(after, key, i);
        },
    }
    match entry_from(vars, other, 0) {
        Some(j) => {
            assert(after[j].enabled && after[j].key == other);
            if entry_from(after, other, 0) is Some {
                let k = entry_from(after, other, 0)->0;
                if k < j {
                    assert(!(vars[k].enabled && vars[k].key == other));
                } else if k > j {
                    assert(!(after[j].enabled && after[j].key == other));
                }
            } else {
                assert(!(after[j].enabled && after[j].key == other));
            }
        },
        None => {
            if entry_from(after, other, 0) is Some {
                let k = entry_from(after, other, 0)->0;
                if k < vars.len() {
                    assert(!(vars[k].enabled && vars[k].key == other));
                }
            }
        },
    }
}

proof fn lemma_env_from(envs: Seq<EnvironmentView>, id: Option<Ulid>, at: int)
    requires
        0 <= at,
    ensures
        env_from(envs, id, at) matches Some(i) ==> at <= i < envs.len() && Some(envs[i].id) == id,
    decreases envs.len() - at,
{
    if at < envs.len() && Some(envs[at].id) != id {
        lemma_env_from(envs, id, at + 1);
    }
}

proof fn lemma_group_from(groups: Seq<GroupVarsView>, name: Seq<char>, at: int)
    requires
        0 <= at,
    ensures
        group_from(groups, name, at) matches Some(i) ==> at <= i < groups.len() && groups[i].name
            == name,
    decreases groups.len() - at,
{
    if at < groups.len() && groups[at].name != name {
        lemma_group_from(groups, name, at + 1);
    }
}

proof fn lemma_env_same_ids(
    a: Seq<EnvironmentView>,
    b: Seq<EnvironmentView>,
    id: Option<Ulid>,
    at: int,
)
    requires
        0 <= at,
        a.len() == b.len(),
        forall|i: int| 0 <= i < a.len() ==> #[trigger] a[i].id == b[i].id,
    ensures
        env_from(a, id, at) == env_from(b, id, at),
    decreases a.len() - at,
{
    if at < a.len() {
        assert(a[at].id == b[at].id);
        lemma_env_same_ids(a, b, id, at + 1);
    }
}

proof fn lemma_group_same_names(
    a: Seq<GroupVarsView>,
    b: Seq<GroupVarsView>,
    name: Seq<char>,
    at: int,
)
    requires
        0 <= at,
        a.len() <= b.len(),
        forall|i: int| 0 <= i < a.len() ==> #[trigger] a[i].name == b[i].name,
    ensures
        group_from(a, name, at) is Some ==> group_from(b, name, at) == group_from(a, name, at),
        group_from(a, name, at) is None && at <= a.len() < b.len() && b[a.len() as int].name == name
            ==> group_from(b, name, at) == Some(a.len() as int),
    decreases a.len() - at,
{
    if at < a.len() {
        assert(a[at].name == b[at].name);
        lemma_group_same_names(a, b, name, at + 1);
    } else if at == a.len() && a.len() < b.len() && b[at].name == name {
        assert(group_from(b, name, at) == Some(at));
    }
}

/// What is written to a scope is what that scope gives back; the other scopes are
/// not affected.
pub proof fn written_variable_is_read_back(
    s: SetsView,
    scope: VarScope,
    group: Option<Seq<char>>,
    key: Seq<char>,
    value: Seq<char>,
)
    ensures
        sets_after(s, scope, group, key, value) matches Some(after) ==> {
            &&& layer_value(scope_layer(after, scope, group), key) == Some(value)
            &&& (scope != VarScope::Global ==> after.globals == s.globals)
            &&& (scope != VarScope::Group ==> after.groups == s.groups)
            &&& (scope != VarScope::Environment ==> after.environments == s.environments)
            &&& after.active == s.active
        },
{
    let other = key.push('x');
    assert(other.len() != key.len());
    match scope {
        VarScope::Global => {
            set_value_is_read_back(s.globals, key, value, other);
        },
        VarScope::Group => {
            if let Some(name) = group {
                lemma_group_from(s.groups, name, 0);
                let after = sets_after(s, scope, group, key, value)->0;
                match group_from(s.groups, name, 0) {
                    Some(i) => {
                        set_value_is_read_back(s.groups[i].variables, key, value, other);
                        lemma_group_same_names(s.groups, after.groups, name, 0);
                    },
                    None => {
                        set_value_is_read_back(Seq::empty(), key, value, other);
                        lemma_group_same_names(s.groups, after.groups, name, 0);
                    },
                }
            }
        },
        VarScope::Environment => {
            lemma_env_from(s.environments, s.active, 0);
            if let Some(i) = env_from(s.environments, s.active, 0) {
                let after = sets_after(s, scope, group, key, value)->0;
                set_value_is_read_back(s.environments[i].variables, key, value, other);
                lemma_env_same_ids(s.environments, after.environments, s.active, 0);
            }
        },
    }
}

/// A write fails only for want of a group, or of an active environment.
pub proof fn writes_fail_only_without_a_table(
    s: SetsView,
    scope: VarScope,
    group: Option<Seq<char>>,
    key: Seq<char>,
    value: Seq<char>,
)
    ensures
        sets_after(s, scope, group, key, value) is None <==> (scope == VarScope::Group && group
            is None) || (scope == VarScope::Environment && env_from(
            s.environments,
            s.active,
            0,
        ) is None),
{
}

/// Sets `key` in one table.
fn put(vars: &mut Vec<Variable>, key: &str, value: &str)
    ensures
        views(final(vars)@) == with_value(views(old(vars)@), key@, value@),
{
    let ghost all = views(vars@);
    let mut i: usize = 0;
    while i < vars.len()
        invariant
            vars@ == old(vars)@,
            all == views(vars@),
            i <= vars@.len(),
            entry_from(all, key@, 0) == entry_from(all, key@, i as int),
        decreases vars@.len() - i,
    {
        proof {
            assert(all[i as int] == vars@[i as int]@);
        }
        if vars[i].enabled && same_text(vars[i].key.as_str(), key) {
            let mut v = vars[i].clone();
            v.value = value.to_owned();
            vars.set(i, v);
            proof {
                assert(views(vars@) =~= all.update(
                    i as int,
                    VariableView { value: value@, ..all[i as int] },
                ));
            }
            return;
        }
        i = i + 1;
    }
    vars.push(Variable::new(key, value));
    proof {
        assert(views(vars@) =~= all.push(plain_variable(key@, value@)));
    }
}

impl VariableSets {
    fn active_index(&self) -> (r: Option<usize>)
        ensures
            match r {
                Some(i) => env_from(self@.environments, self@.active, 0) == Some(i as int) && i
                    < self.environments@.len(),
                None => env_from(self@.environments, self@.active, 0) is None,
            },
    {
        let ghost all = self@.environments;
        let mut i: usize = 0;
        while i < self.environments.len()
            invariant
                all == views(self.environments@),
                i <= self.environments@.len(),
                env_from(all, self.active_environment, 0) == env_from(
                    all,
                    self.active_environment,
                    i as int,
                ),
            decreases self.environments@.len() - i,
        {
            proof {
                assert(all[i as int] == self.environments@[i as int]@);
            }
            if let Some(id) = self.active_environment {
                if id == self.environments[i].id {
                    return Some(i);
                }
            }
            i = i + 1;
        }
        None
    }

    fn group_index(&self, name: &str) -> (r: Option<usize>)
        ensures
            match r {
                Some(i) => group_from(self@.groups, name@, 0) == Some(i as int) && i
                    < self.groups@.len(),
                None => group_from(self@.groups, name@, 0) is None,
            },
    {
        let ghost all = self@.groups;
        let mut i: usize = 0;
        while i < self.groups.len()
            invariant
                all == views(self.groups@),
                i <= self.groups@.len(),
                group_from(all, name@, 0) == group_from(all, name@, i as int),
            decreases self.groups@.len() - i,
        {
            proof {
                assert(all[i as int] == self.groups@[i as int]@);
            }
            if same_text(self.groups[i].name.as_str(), name) {
                return Some(i);
            }
            i = i + 1;
        }
        None
    }

    /// The active environment, where there is one.
    pub fn active_env(&self) -> (r: Option<&Environment>)
        ensures
            match r {
                Some(e) => env_from(self@.environments, self@.active, 0) matches Some(i)
                    && self@.environments[i] == e@,
                None => env_from(self@.environments, self@.active, 0) is None,
            },
    {
        match self.active_index() {
            Some(i) => {
                proof {
                    assert(self@.environments[i as int] == self.environments@[i as int]@);
                }
                Some(&self.environments[i])
            },
            None => None,
        }
    }

    /// The variables of a group; none where there is no such group.
    pub fn group_vars(&self, group: Option<&str>) -> (r: &[Variable])
        ensures
            views(r@) == group_layer(
                self@,
                match group {
                    Some(name) => Some(name@),
                    None => None,
                },
            ),
    {
        let none: &[Variable] = &[];
        proof {
            assert(views(none@) =~= Seq::<VariableView>::empty());
        }
        match group {
            None => none,
            Some(name) => match self.group_index(name) {
                Some(i) => {
                    proof {
                        assert(self@.groups[i as int] == self.groups@[i as int]@);
                    }
                    self.groups[i].variables.as_slice()
                },
                None => none,
            },
        }
    }

    /// The tables that a request of `group` sees.
    pub fn context(&self, group: Option<&str>) -> (r: VarContext<'_>)
        ensures
            r@ == layers_of(
                self@,
                match group {
                    Some(name) => Some(name@),
                    None => None,
                },
            ),
    {
        let none: &[Variable] = &[];
        proof {
            assert(views(none@) =~= Seq::<VariableView>::empty());
        }
        let env: &[Variable] = match self.active_index() {
            Some(i) => {
                proof {
                    assert(self@.environments[i as int] == self.environments@[i as int]@);
                }
                self.environments[i].variables.as_slice()
            },
            None => none,
        };
        VarContext::new(self.globals.as_slice(), self.group_vars(group), env)
    }

    /// Sets a variable. `false` means that there is no table to write to; then
    /// nothing changes.
    pub fn set_var(&mut self, scope: VarScope, group: Option<&str>, key: &str, value: &str) -> (r:
        bool)
        ensures
            ({
                let g = match group {
                    Some(name) => Some(name@),
                    None => None,
                };
                match sets_after(old(self)@, scope, g, key@, value@) {
                    Some(after) => r && final(self)@ == after,
                    None => !r && final(self)@ == old(self)@,
                }
            }),
    {
        let ghost before = self@;
        match scope {
            VarScope::Global => {
                put(&mut self.globals, key, value);
                true
            },
            VarScope::Group => match group {
                None => false,
                Some(name) => {
                    match self.group_index(name) {
                        Some(i) => {
                            let ghost held = self.groups@;
                            proof {
                                assert(before.groups[i as int] == held[i as int]@);
                            }
                            let mut entry = self.groups.remove(i);
                            put(&mut entry.variables, key, value);
                            self.groups.insert(i, entry);
                            proof {
                                assert(self.groups@ =~= held.update(i as int, entry));
                                assert(views(self.groups@) =~= before.groups.update(
                                    i as int,
                                    entry@,
                                ));
                            }
                        },
                        None => {
                            let mut entry = GroupVars {
                                name: name.to_owned(),
                                variables: Vec::new(),
                            };
                            proof {
                                assert(views(entry.variables@) =~= Seq::<VariableView>::empty());
                            }
                            put(&mut entry.variables, key, value);
                            let ghost added = entry@;
                            self.groups.push(entry);
                            proof {
                                assert(views(self.groups@) =~= before.groups.push(added));
                            }
                        },
                    }
                    true
                },
            },
            VarScope::Environment => match self.active_index() {
                None => false,
                Some(i) => {
                    let ghost held = self.environments@;
                    proof {
                        assert(before.environments[i as int] == held[i as int]@);
                    }
                    let mut entry = self.environments.remove(i);
                    put(&mut entry.variables, key, value);
                    self.environments.insert(i, entry);
                    proof {
                        assert(self.environments@ =~= held.update(i as int, entry));
                        assert(views(self.environments@) =~= before.environments.update(
                            i as int,
                            entry@,
                        ));
                    }
                    true
                },
            },
        }
    }
}

} // verus!
