//! What the host of the agents does with the configuration and with the
//! interface's commands.

use crate::agents;
use crate::agents::precedes;
use crate::app::find_model;
use crate::config;
use crate::config::{ConfigError, Field, ModelChoice, ProviderConfig, ProviderProtocol, Setting};
use crate::desk;
use crate::history::{AgentHistory, Command, CommandResult, RuntimePreferences, SentMessage};
use crate::intent;
use crate::text;
use vstd::prelude::*;
use vstd::string::*;

verus! {

/// Why the runtime could not be started.
#[derive(Debug, PartialEq, Eq)]
pub enum RuntimeError {
    Journal(String),
    Model(String),
    CodingPack(String),
    Preferences(String),
    AgentSystem(String),
}

impl RuntimeError {
    /// What failed.
    pub open spec fn what(self) -> Seq<char> {
        match self {
            RuntimeError::Journal(_) => "could not open the durable session journal: "@,
            RuntimeError::Model(_) => "could not configure a model: "@,
            RuntimeError::CodingPack(_) => "could not configure coding capabilities: "@,
            RuntimeError::Preferences(_) => "could not restore runtime preferences: "@,
            RuntimeError::AgentSystem(_) => "could not start the agent runtime: "@,
        }
    }

    /// Why it failed.
    pub open spec fn why(self) -> Seq<char> {
        match self {
            RuntimeError::Journal(s) => s@,
            RuntimeError::Model(s) => s@,
            RuntimeError::CodingPack(s) => s@,
            RuntimeError::Preferences(s) => s@,
            RuntimeError::AgentSystem(s) => s@,
        }
    }

    /// The text of the error.
    pub fn message(&self) -> (r: String)
        ensures
            r@ == self.what() + self.why(),
    {
        match self {
            RuntimeError::Journal(s) => {
                text::concat("could not open the durable session journal: ", s.as_str())
            },
            RuntimeError::Model(s) => text::concat("could not configure a model: ", s.as_str()),
            RuntimeError::CodingPack(s) => {
                text::concat("could not configure coding capabilities: ", s.as_str())
            },
            RuntimeError::Preferences(s) => {
                text::concat("could not restore runtime preferences: ", s.as_str())
            },
            RuntimeError::AgentSystem(s) => {
                text::concat("could not start the agent runtime: ", s.as_str())
            },
        }
    }
}

/// The reasoning effort of one model: where it goes in a request, which
/// values are allowed and which one is selected. A model's control exists
/// once, in the list that its host shares; requests refer to it by its index,
/// so that each of them carries the effort selected last.
#[derive(Debug)]
pub struct EffortControl {
    path: Vec<String>,
    allowed: Vec<String>,
    selected: String,
}

impl EffortControl {
    pub closed spec fn path_view(self) -> Seq<Seq<char>> {
        text::texts(self.path@)
    }

    pub closed spec fn allowed_view(self) -> Seq<Seq<char>> {
        text::texts(self.allowed@)
    }

    pub closed spec fn selected_view(self) -> Seq<char> {
        self.selected@
    }

    /// The selected effort is an allowed one.
    pub open spec fn wf(self) -> bool {
        self.allowed_view().contains(self.selected_view())
    }

    /// A control with the last of the allowed efforts selected.
    pub fn new(path: Vec<String>, allowed: &Vec<String>) -> (r: Self)
        requires
            allowed@.len() > 0,
        ensures
            r.wf(),
            r.path_view() == text::texts(path@),
            r.allowed_view() == text::texts(allowed@),
            r.selected_view() == allowed@.last()@,
    {
        let mut kept: Vec<String> = Vec::new();
        let mut i: usize = 0;
        let ghost all = text::texts(allowed@);
        proof {
            assert(text::texts(kept@) =~= all.take(0));
        }
        while i < allowed.len()
            invariant
                i <= allowed@.len(),
                all == text::texts(allowed@),
                text::texts(kept@) == all.take(i as int),
            decreases allowed@.len() - i,
        {
            let ghost before = kept@;
            kept.push(allowed[i].clone());
            proof {
                assert(all[i as int] == allowed@[i as int]@);
                assert(all.take(i + 1) =~= all.take(i as int).push(all[i as int]));
                assert(text::texts(kept@) =~= text::texts(before).push(all[i as int]));
            }
            i += 1;
        }
        let selected = allowed[allowed.len() - 1].clone();
        proof {
            assert(all.take(all.len() as int) =~= all);
            assert(all[all.len() - 1] == selected@);
        }
        EffortControl { path, allowed: kept, selected }
    }

    /// Selects an effort; one that is not allowed is refused.
    pub fn set(&mut self, effort: &str) -> (r: Result<(), String>)
        requires
            old(self).wf(),
        ensures
            final(self).wf(),
            final(self).path_view() == old(self).path_view(),
            final(self).allowed_view() == old(self).allowed_view(),
            r is Ok == old(self).allowed_view().contains(effort@),
            r is Ok ==> final(self).selected_view() == effort@,
            r matches Err(e) ==> *final(self) == *old(self) && e@ == "reasoning effort `"@ + effort@
                + "` is not supported"@,
    {
        let mut i: usize = 0;
        let ghost all = text::texts(self.allowed@);
        while i < self.allowed.len()
            invariant
                i <= self.allowed@.len(),
                *self == *old(self),
                self.wf(),
                all == text::texts(self.allowed@),
                all == self.allowed_view(),
                forall|k: int| 0 <= k < i ==> #[trigger] all[k] != effort@,
            decreases self.allowed@.len() - i,
        {
            proof {
                assert(all[i as int] == self.allowed@[i as int]@);
            }
            if text::same(self.allowed[i].as_str(), effort) {
                self.selected = effort.to_owned();
                proof {
                    assert(self.allowed_view()[i as int] == effort@);
                }
                return Ok(());
            }
            i += 1;
        }
        Err(text::concat3("reasoning effort `", effort, "` is not supported"))
    }

    pub fn selected(&self) -> (r: String)
        ensures
            r@ == self.selected_view(),
    {
        self.selected.clone()
    }

    /// Where the effort goes in a request.
    pub fn path(&self) -> (r: &Vec<String>)
        ensures
            text::texts(r@) == self.path_view(),
    {
        &self.path
    }
}

/// Whether `after` is `before` with `leaf` at the path `path[i..]`; tables on
/// the way are made where they are missing. What else there was stays.
pub open spec fn has_leaf(
    before: Seq<Field>,
    after: Seq<Field>,
    path: Seq<Seq<char>>,
    i: int,
    leaf: Seq<char>,
) -> bool
    decreases path.len() - i,
{
    if i < 0 || i >= path.len() {
        false
    } else {
        match config::field_at(before, 0, path[i]) {
            None => {
                &&& after.len() == before.len() + 1
                &&& after.take(before.len() as int) == before
                &&& after.last().name@ == path[i]
                &&& if i + 1 == path.len() {
                    after.last().value matches Setting::Value(v) && v@ == leaf
                } else {
                    after.last().value matches Setting::Table(inner) && has_leaf(
                        Seq::empty(),
                        inner@,
                        path,
                        i + 1,
                        leaf,
                    )
                }
            },
            Some(k) => {
                &&& after.len() == before.len()
                &&& forall|j: int| 0 <= j < before.len() && j != k ==> #[trigger] after[j] == before[j]
                &&& after[k].name@ == path[i]
                &&& if i + 1 == path.len() {
                    after[k].value matches Setting::Value(v) && v@ == leaf
                } else {
                    &&& before[k].value matches Setting::Table(old_inner)
                    &&& after[k].value matches Setting::Table(new_inner)
                    &&& has_leaf(old_inner@, new_inner@, path, i + 1, leaf)
                }
            },
        }
    }
}

/// Whether something on the way of `path[i..]` is no table.
pub open spec fn is_blocked(fields: Seq<Field>, path: Seq<Seq<char>>, i: int) -> bool
    decreases path.len() - i,
{
    if i < 0 || i + 1 >= path.len() {
        false
    } else {
        match config::field_at(fields, 0, path[i]) {
            None => false,
            Some(k) => match fields[k].value {
                Setting::Table(inner) => is_blocked(inner@, path, i + 1),
                Setting::Value(_) => true,
            },
        }
    }
}

fn find_field(fields: &Vec<Field>, name: &str) -> (r: Option<usize>)
    ensures
        (match r {
            Some(i) => Some(i as int),
            None => None,
        }) == config::field_at(fields@, 0, name@),
        r matches Some(i) ==> i < fields@.len() && fields@[i as int].name@ == name@,
{
    let mut i: usize = 0;
    while i < fields.len()
        invariant
            i <= fields@.len(),
            config::field_at(fields@, 0, name@) == config::field_at(fields@, i as int, name@),
        decreases fields@.len() - i,
    {
        if text::same(fields[i].name.as_str(), name) {
            return Some(i);
        }
        i += 1;
    }
    None
}

/// Puts `leaf` at `path[i..]` of a request body. `None`: something on the way
/// is no table.
fn insert_at(body: Vec<Field>, path: &Vec<String>, i: usize, leaf: &str) -> (r: Option<Vec<Field>>)
    requires
        i < path@.len(),
    ensures
        r is None == is_blocked(body@, text::texts(path@), i as int),
        r matches Some(after) ==> has_leaf(
            body@,
            after@,
            text::texts(path@),
            i as int,
            leaf@,
        ),
    decreases path@.len() - i,
{
    let ghost all = text::texts(path@);
    let ghost before = body@;
    let count: usize = path.len();
    proof {
        assert(all.len() == path@.len());
        assert(all[i as int] == path@[i as int]@);
    }
    let last = i + 1 == count;
    let mut fields = body;
    match find_field(&fields, path[i].as_str()) {
        None => {
            let value = if last {
                Setting::Value(leaf.to_owned())
            } else {
                let fresh: Vec<Field> = Vec::new();
                proof {
                    assert(fresh@ =~= Seq::empty());
                    lemma_empty_is_open(all, i + 1);
                }
                match insert_at(fresh, path, i + 1, leaf) {
                    None => {
                        return None;
                    },
                    Some(inner) => Setting::Table(inner),
                }
            };
            fields.push(Field { name: path[i].clone(), value });
            proof {
                assert(fields@.take(before.len() as int) =~= before);
            }
            Some(fields)
        },
        Some(k) => {
            if last {
                fields[k].value = Setting::Value(leaf.to_owned());
                return Some(fields);
            }
            let mut taken = Setting::Value(String::new());
            core::mem::swap(&mut taken, &mut fields[k].value);
            match taken {
                Setting::Value(_) => None,
                Setting::Table(inner) => match insert_at(inner, path, i + 1, leaf) {
                    None => None,
                    Some(next) => {
                        fields[k].value = Setting::Table(next);
                        Some(fields)
                    },
                },
            }
        },
    }
}

proof fn lemma_empty_is_open(path: Seq<Seq<char>>, i: int)
    ensures
        !is_blocked(Seq::empty(), path, i),
{
}

/// Puts a value, given as JSON, at `path` of a request body and makes the
/// tables on the way. `None`: something on the way is no table.
pub fn insert_json_path(body: Vec<Field>, path: &Vec<String>, leaf: &str) -> (r: Option<Vec<Field>>)
    requires
        path@.len() > 0,
    ensures
        r is None == is_blocked(body@, text::texts(path@), 0),
        r matches Some(after) ==> has_leaf(body@, after@, text::texts(path@), 0, leaf@),
{
    insert_at(body, path, 0, leaf)
}

/// The value at `path[i..]` of a request body.
pub open spec fn leaf_at(fields: Seq<Field>, path: Seq<Seq<char>>, i: int) -> Option<Seq<char>>
    decreases path.len() - i,
{
    if i < 0 || i >= path.len() {
        None
    } else {
        match config::field_at(fields, 0, path[i]) {
            None => None,
            Some(k) => match fields[k].value {
                Setting::Value(v) => if i + 1 == path.len() {
                    Some(v@)
                } else {
                    None
                },
                Setting::Table(inner) => if i + 1 == path.len() {
                    None
                } else {
                    leaf_at(inner@, path, i + 1)
                },
            },
        }
    }
}

proof fn lemma_field_of_push(fields: Seq<Field>, f: Field, i: int, name: Seq<char>)
    requires
        0 <= i <= fields.len(),
        config::field_at(fields, i, name) is None,
        f.name@ == name,
    ensures
        config::field_at(fields.push(f), i, name) == Some(fields.len() as int),
    decreases fields.len() - i,
{
    if i < fields.len() {
        lemma_field_of_push(fields, f, i + 1, name);
    }
}

proof fn lemma_field_kept(a: Seq<Field>, b: Seq<Field>, i: int, name: Seq<char>, k: int)
    requires
        0 <= i <= k < a.len(),
        a.len() == b.len(),
        config::field_at(a, i, name) == Some(k),
        forall|j: int| 0 <= j < a.len() && j != k ==> #[trigger] b[j] == a[j],
        b[k].name@ == name,
    ensures
        config::field_at(b, i, name) == Some(k),
    decreases k - i,
{
    if i < k {
        assert(b[i] == a[i]);
        lemma_field_kept(a, b, i + 1, name, k);
    }
}

proof fn lemma_field_range(a: Seq<Field>, i: int, name: Seq<char>)
    requires
        0 <= i,
    ensures
        config::field_at(a, i, name) matches Some(k) ==> i <= k < a.len(),
    decreases a.len() - i,
{
    if i < a.len() {
        lemma_field_range(a, i + 1, name);
    }
}

/// What was put into a request body at a path is found there again.
pub proof fn inserted_values_are_found(
    before: Seq<Field>,
    after: Seq<Field>,
    path: Seq<Seq<char>>,
    i: int,
    leaf: Seq<char>,
)
    requires
        has_leaf(before, after, path, i, leaf),
    ensures
        leaf_at(after, path, i) == Some(leaf),
    decreases path.len() - i,
{
    lemma_field_range(before, 0, path[i]);
    match config::field_at(before, 0, path[i]) {
        None => {
            lemma_field_of_push(before, after.last(), 0, path[i]);
            assert(after =~= before.push(after.last()));
            if i + 1 < path.len() {
                if let Setting::Table(inner) = after.last().value {
                    inserted_values_are_found(Seq::empty(), inner@, path, i + 1, leaf);
                }
            }
        },
        Some(k) => {
            lemma_field_kept(before, after, 0, path[i], k);
            if i + 1 < path.len() {
                if let Setting::Table(old_inner) = before[k].value {
                    if let Setting::Table(new_inner) = after[k].value {
                        inserted_values_are_found(old_inner@, new_inner@, path, i + 1, leaf);
                    }
                }
            }
        },
    }
}

/// A text as a JSON string.
pub uninterp spec fn json_text(s: Seq<char>) -> Seq<char>;

/// The JSON that `serde_json::Value::String` is shown as, named by
/// [`json_text`]. Read as JSON it is the text again.
#[verifier::external_body]
fn quoted(s: &str) -> (r: String)
    ensures
        r@ == json_text(s@),
        intent::json_string(vstd::utf8::encode_utf8(r@)) == Some(s@),
{
    serde_json::Value::String(s.to_owned()).to_string()
}

/// Puts the selected effort of a model into the body of a request to it.
/// `None`: something on the way is no table.
pub fn with_effort(body: Vec<Field>, controls: &Vec<EffortControl>, index: usize) -> (r: Option<
    Vec<Field>,
>)
    requires
        index < controls@.len(),
        controls@[index as int].path_view().len() > 0,
    ensures
        ({
            let control = controls@[index as int];
            &&& r is None == is_blocked(body@, control.path_view(), 0)
            &&& r matches Some(after) ==> has_leaf(
                body@,
                after@,
                control.path_view(),
                0,
                json_text(control.selected_view()),
            ) && leaf_at(after@, control.path_view(), 0) == Some(
                json_text(control.selected_view()),
            ) && intent::json_string(
                vstd::utf8::encode_utf8(json_text(control.selected_view())),
            ) == Some(control.selected_view())
        }),
{
    let control = &controls[index];
    let leaf = quoted(control.selected.as_str());
    let ghost before = body@;
    match insert_json_path(body, &control.path, leaf.as_str()) {
        Some(after) => {
            proof {
                inserted_values_are_found(before, after@, control.path_view(), 0, leaf@);
            }
            Some(after)
        },
        None => None,
    }
}

/// What the host needs to talk to a model.
#[derive(Debug)]
pub struct ModelPlan {
    /// The wire format.
    pub codec: String,
    pub api_key: Option<String>,
    pub effort_path: Vec<String>,
}

/// Plans the connection to a provider's models. `environment` is the value of
/// the provider's key variable. Subscriptions bring their own credentials and
/// are not planned here.
pub fn plan_model(provider: &ProviderConfig, environment: Option<&str>) -> (r: Result<
    ModelPlan,
    RuntimeError,
>)
    requires
        provider.protocol == ProviderProtocol::OpenaiResponses || provider.protocol
            == ProviderProtocol::OpenaiChatCompletions,
    ensures
        r matches Ok(plan) ==> {
            &&& config::key_fault(*provider) is None
            &&& config::effort_path_fault(*provider) is None
            &&& text::texts(plan.effort_path@) == config::effort_segments(*provider)
            &&& plan.effort_path@.len() > 0
            &&& text::opt_text(plan.api_key) == configured_key(*provider, environment)
            &&& plan.codec@ == codec_name(provider.protocol)
        },
        r is Ok == (config::key_fault(*provider) is None && config::effort_path_fault(
            *provider,
        ) is None && (provider.api_key_env is Some ==> configured_key(
            *provider,
            environment,
        ) is Some) && (provider.protocol == ProviderProtocol::OpenaiResponses ==> configured_key(
            *provider,
            environment,
        ) is Some)),
        r matches Err(e) ==> e is Model && e.why() == plan_fault(*provider, environment),
{
    let key = match provider.resolved_api_key(environment) {
        Err(e) => {
            return Err(RuntimeError::Model(e.message()));
        },
        Ok(key) => key,
    };
    let effort_path = match provider.resolved_effort_path() {
        Err(e) => {
            return Err(RuntimeError::Model(e.message()));
        },
        Ok(path) => path,
    };
    match provider.protocol {
        ProviderProtocol::OpenaiResponses => {
            if key.is_none() {
                return Err(
                    RuntimeError::Model(
                        text::concat3(
                            "provider `",
                            provider.name.as_str(),
                            "` requires api_key or api_key_env for OpenAI Responses",
                        ),
                    ),
                );
            }
            Ok(ModelPlan { codec: "openai/responses".to_owned(), api_key: key, effort_path })
        },
        _ => Ok(
            ModelPlan { codec: "openai/chat-completions".to_owned(), api_key: key, effort_path },
        ),
    }
}

/// The wire format of a protocol.
pub open spec fn codec_name(protocol: ProviderProtocol) -> Seq<char> {
    if protocol == ProviderProtocol::OpenaiResponses {
        "openai/responses"@
    } else {
        "openai/chat-completions"@
    }
}

/// The key of a provider whose fields are in order.
pub open spec fn configured_key(p: ProviderConfig, environment: Option<&str>) -> Option<Seq<char>> {
    match (p.api_key, p.api_key_env) {
        (Some(key), _) => Some(key@),
        (None, Some(_)) => match environment {
            Some(value) => if text::is_blank(value@) {
                None
            } else {
                Some(value@)
            },
            None => None,
        },
        (None, None) => None,
    }
}

/// Why a provider's models cannot be used: the first thing that is wrong.
pub open spec fn plan_fault(p: ProviderConfig, environment: Option<&str>) -> Seq<char> {
    if config::key_fault(p) is Some {
        config::key_fault(p)->0.text()
    } else if p.api_key_env is Some && configured_key(p, environment) is None {
        config::Fault::MissingEnvironmentKey(p.name@, p.api_key_env->0@).text()
    } else if config::effort_path_fault(p) is Some {
        config::effort_path_fault(p)->0.text()
    } else {
        "provider `"@ + p.name@ + "` requires api_key or api_key_env for OpenAI Responses"@
    }
}

/// Whether a provider's key is to come from a variable that has no value. Its
/// models cannot be used, which is no fault of the configuration.
pub open spec fn lacks_key(p: ProviderConfig, environment: Option<Seq<char>>) -> bool {
    &&& p.protocol == ProviderProtocol::OpenaiResponses || p.protocol
        == ProviderProtocol::OpenaiChatCompletions
    &&& config::key_fault(p) is None
    &&& p.api_key_env is Some
    &&& environment is None || text::is_blank(environment->0)
}

/// What a host found where a provider's credentials are to come from.
#[derive(Debug)]
pub enum Access {
    /// The value of the provider's key variable, if it has one.
    Key(Option<String>),
    /// Why the host has no way to the provider.
    Refused(String),
}

/// The value of an [`Access`].
pub enum Credential {
    Key(Option<Seq<char>>),
    Refused(Seq<char>),
}

impl View for Access {
    type V = Credential;

    open spec fn view(&self) -> Credential {
        match *self {
            Access::Key(value) => Credential::Key(text::opt_text(value)),
            Access::Refused(why) => Credential::Refused(why@),
        }
    }
}

/// What is warned of when a provider's models cannot be used.
pub open spec fn skip_reason(p: ProviderConfig, access: Credential) -> Option<Seq<char>> {
    match access {
        Credential::Refused(why) => Some(why),
        Credential::Key(environment) => if lacks_key(p, environment) {
            Some(config::Fault::MissingEnvironmentKey(p.name@, p.api_key_env->0@).text())
        } else {
            None
        },
    }
}

/// Whether the models of the provider called `name` cannot be used.
pub open spec fn is_skipped(
    providers: Seq<ProviderConfig>,
    access: Seq<Credential>,
    name: Seq<char>,
) -> bool {
    exists|i: int|
        0 <= i < providers.len() && (#[trigger] providers[i]).name@ == name && skip_reason(
            providers[i],
            access[i],
        ) is Some
}

/// Those of the first `n` models that can be used.
pub open spec fn usable(
    providers: Seq<ProviderConfig>,
    access: Seq<Credential>,
    models: Seq<ModelChoice>,
    n: int,
) -> Seq<ModelChoice>
    decreases n,
{
    if n <= 0 {
        Seq::empty()
    } else if is_skipped(providers, access, models[n - 1].provider@) {
        usable(providers, access, models, n - 1)
    } else {
        usable(providers, access, models, n - 1).push(models[n - 1])
    }
}

/// What is said of those of the first `n` providers that are skipped.
pub open spec fn skip_warnings(
    providers: Seq<ProviderConfig>,
    access: Seq<Credential>,
    n: int,
) -> Seq<Seq<char>>
    decreases n,
{
    if n <= 0 {
        Seq::empty()
    } else {
        let before = skip_warnings(providers, access, n - 1);
        match skip_reason(providers[n - 1], access[n - 1]) {
            Some(why) => before.push(why),
            None => before,
        }
    }
}

/// What is said when the default model had to be replaced.
pub open spec fn fallback_warning(default: Seq<char>, used: Seq<char>) -> Seq<char> {
    "default model `"@ + default + "` is unavailable; using `"@ + used + "`"@
}

/// The models that can be used, the default among them, and what to warn of.
#[derive(Debug)]
pub struct Lineup {
    pub models: Vec<ModelChoice>,
    pub default_index: usize,
    pub warnings: Vec<String>,
}

/// The values of what a host found for each provider.
pub open spec fn credentials_of(v: Seq<Access>) -> Seq<Credential> {
    v.map_values(|a: Access| a@)
}

/// What to warn of when the provider's models cannot be used.
fn reason_to_skip(provider: &ProviderConfig, access: &Access) -> (r: Option<String>)
    ensures
        text::opt_text(r) == skip_reason(*provider, access@),
{
    let environment = match access {
        Access::Refused(why) => {
            return Some(why.clone());
        },
        Access::Key(environment) => environment,
    };
    match provider.protocol {
        ProviderProtocol::OpenaiResponses => {},
        ProviderProtocol::OpenaiChatCompletions => {},
        _ => {
            return None;
        },
    }
    let value = match environment {
        Some(value) => Some(value.as_str()),
        None => None,
    };
    match provider.resolved_api_key(value) {
        Err(e) => match e {
            ConfigError::MissingEnvironmentKey { provider: name, variable } => {
                let e = ConfigError::MissingEnvironmentKey { provider: name, variable };
                Some(e.message())
            },
            _ => None,
        },
        Ok(_) => None,
    }
}

/// Whether the models of the provider called `name` cannot be used.
fn provider_is_skipped(
    providers: &Vec<ProviderConfig>,
    access: &Vec<Access>,
    name: &str,
) -> (r: bool)
    requires
        access@.len() == providers@.len(),
    ensures
        r == is_skipped(providers@, credentials_of(access@), name@),
{
    let ghost values = credentials_of(access@);
    let mut i: usize = 0;
    while i < providers.len()
        invariant
            i <= providers@.len(),
            access@.len() == providers@.len(),
            values == credentials_of(access@),
            forall|k: int|
                0 <= k < i && (#[trigger] providers@[k]).name@ == name@ ==> skip_reason(
                    providers@[k],
                    values[k],
                ) is None,
        decreases providers@.len() - i,
    {
        proof {
            assert(values[i as int] == access@[i as int]@);
        }
        if text::same(providers[i].name.as_str(), name) && reason_to_skip(
            &providers[i],
            &access[i],
        ).is_some() {
            return true;
        }
        i += 1;
    }
    false
}

fn warn_of_skipped(providers: &Vec<ProviderConfig>, access: &Vec<Access>) -> (r: Vec<
    String,
>)
    requires
        access@.len() == providers@.len(),
    ensures
        text::texts(r@) == skip_warnings(
            providers@,
            credentials_of(access@),
            providers@.len() as int,
        ),
{
    let ghost values = credentials_of(access@);
    let mut r: Vec<String> = Vec::new();
    let mut i: usize = 0;
    proof {
        assert(text::texts(r@) =~= Seq::empty());
    }
    while i < providers.len()
        invariant
            i <= providers@.len(),
            access@.len() == providers@.len(),
            values == credentials_of(access@),
            text::texts(r@) == skip_warnings(providers@, values, i as int),
        decreases providers@.len() - i,
    {
        let ghost before = text::texts(r@);
        proof {
            assert(values[i as int] == access@[i as int]@);
        }
        if let Some(warning) = reason_to_skip(&providers[i], &access[i]) {
            r.push(warning);
            proof {
                assert(text::texts(r@) =~= before.push(warning@));
            }
        }
        i += 1;
    }
    r
}

/// The models that can be used. A provider whose key variable has no value, or
/// to which the host has no way, is skipped with a warning, and a default
/// model that is skipped gives way to the first model that is left. `access`
/// is what the host found for each provider. It is an error when no model is
/// left.
pub fn available_models(
    providers: &Vec<ProviderConfig>,
    access: &Vec<Access>,
    models: Vec<ModelChoice>,
    default_index: usize,
) -> (r: Result<Lineup, RuntimeError>)
    requires
        access@.len() == providers@.len(),
        default_index < models@.len(),
    ensures
        ({
            let values = credentials_of(access@);
            let left = usable(providers@, values, models@, models@.len() as int);
            let warnings = skip_warnings(providers@, values, providers@.len() as int);
            let default = models@[default_index as int];
            match r {
                Ok(lineup) => {
                    &&& left.len() > 0
                    &&& lineup.models@ == left
                    &&& lineup.default_index < left.len()
                    &&& if is_skipped(providers@, values, default.provider@) {
                        &&& lineup.default_index == 0
                        &&& text::texts(lineup.warnings@) == warnings.push(
                            fallback_warning(default.registry_id@, left[0].registry_id@),
                        )
                    } else {
                        &&& lineup.default_index == usable(
                            providers@,
                            values,
                            models@,
                            default_index as int,
                        ).len()
                        &&& lineup.models@[lineup.default_index as int] == default
                        &&& text::texts(lineup.warnings@) == warnings
                    }
                },
                Err(e) => left.len() == 0 && e is Model && e.why() == text::join(warnings, "; "@),
            }
        }),
{
    let ghost values = credentials_of(access@);
    let ghost all = models@;
    let total: usize = models.len();
    let default_name = models[default_index].registry_id.clone();
    let mut models = models;
    let mut default_left: Option<usize> = None;
    let mut seen: usize = 0;
    let mut at: usize = 0;
    proof {
        assert(all.skip(0) =~= all);
        assert(usable(providers@, values, all, 0) + all =~= all);
    }
    while seen < total
        invariant
            seen <= total == all.len(),
            default_index < total,
            access@.len() == providers@.len(),
            values == credentials_of(access@),
            at == usable(providers@, values, all, seen as int).len(),
            at <= seen,
            models@ == usable(providers@, values, all, seen as int) + all.skip(seen as int),
            seen <= default_index ==> default_left is None,
            seen > default_index ==> default_left is None == is_skipped(
                providers@,
                values,
                all[default_index as int].provider@,
            ),
            default_left matches Some(d) ==> d < at && models@[d as int]
                == all[default_index as int] && d == usable(
                providers@,
                values,
                all,
                default_index as int,
            ).len(),
        decreases total - seen,
    {
        let ghost left = usable(providers@, values, all, seen as int);
        let ghost rest = all.skip(seen as int);
        proof {
            assert(models@[at as int] == rest[0]);
            assert(rest[0] == all[seen as int]);
            assert(rest.skip(1) =~= all.skip(seen + 1));
        }
        if provider_is_skipped(providers, access, models[at].provider.as_str()) {
            models.remove(at);
            proof {
                assert(models@ =~= left + all.skip(seen + 1));
            }
        } else {
            if seen == default_index {
                default_left = Some(at);
            }
            at += 1;
            proof {
                assert(models@ =~= left.push(all[seen as int]) + all.skip(seen + 1));
            }
        }
        seen += 1;
    }
    proof {
        assert(all.skip(total as int) =~= Seq::empty());
        assert(models@ =~= usable(providers@, values, all, total as int));
    }
    let mut warnings = warn_of_skipped(providers, access);
    if models.len() == 0 {
        return Err(RuntimeError::Model(text::joined(&warnings, "; ")));
    }
    let default_index: usize = match default_left {
        Some(d) => d,
        None => {
            let ghost before = text::texts(warnings@);
            let mut warning = "default model `".to_owned();
            warning.append(default_name.as_str());
            warning.append("` is unavailable; using `");
            warning.append(models[0].registry_id.as_str());
            warning.append("`");
            warnings.push(warning);
            proof {
                assert(text::texts(warnings@) =~= before.push(warning@));
            }
            0
        },
    };
    Ok(Lineup { models, default_index, warnings })
}

/// Where every provider can be used, no model is skipped and nothing is
/// warned of.
pub proof fn usable_providers_are_kept(
    providers: Seq<ProviderConfig>,
    access: Seq<Credential>,
    models: Seq<ModelChoice>,
    n: int,
)
    requires
        forall|i: int|
            0 <= i < providers.len() ==> skip_reason(
                #[trigger] providers[i],
                access[i],
            ) is None,
        0 <= n <= models.len(),
    ensures
        usable(providers, access, models, n) == models.take(n),
        skip_warnings(providers, access, providers.len() as int) == Seq::<Seq<char>>::empty(),
{
    lemma_all_usable(providers, access, models, n);
    lemma_no_warnings(providers, access, providers.len() as int);
}

proof fn lemma_all_usable(
    providers: Seq<ProviderConfig>,
    access: Seq<Credential>,
    models: Seq<ModelChoice>,
    n: int,
)
    requires
        forall|i: int|
            0 <= i < providers.len() ==> skip_reason(
                #[trigger] providers[i],
                access[i],
            ) is None,
        0 <= n <= models.len(),
    ensures
        usable(providers, access, models, n) == models.take(n),
    decreases n,
{
    if n > 0 {
        lemma_all_usable(providers, access, models, n - 1);
        assert(models.take(n) =~= models.take(n - 1).push(models[n - 1]));
    } else {
        assert(models.take(0) =~= Seq::empty());
    }
}

proof fn lemma_no_warnings(
    providers: Seq<ProviderConfig>,
    access: Seq<Credential>,
    n: int,
)
    requires
        forall|i: int|
            0 <= i < providers.len() ==> skip_reason(
                #[trigger] providers[i],
                access[i],
            ) is None,
        n <= providers.len(),
    ensures
        skip_warnings(providers, access, n) == Seq::<Seq<char>>::empty(),
    decreases n,
{
    if n > 0 {
        lemma_no_warnings(providers, access, n - 1);
        assert(skip_reason(providers[n - 1], access[n - 1]) is None);
    }
}

/// No reason to skip its provider is known of a model that is left: the plan of
/// its provider never fails for want of a variable.
pub proof fn models_that_are_left_are_usable(
    providers: Seq<ProviderConfig>,
    access: Seq<Credential>,
    models: Seq<ModelChoice>,
    n: int,
    k: int,
    i: int,
)
    requires
        0 <= n <= models.len(),
        0 <= k < usable(providers, access, models, n).len(),
        0 <= i < providers.len(),
        providers[i].name@ == usable(providers, access, models, n)[k].provider@,
    ensures
        skip_reason(providers[i], access[i]) is None,
    decreases n,
{
    let before = usable(providers, access, models, n - 1);
    if n > 0 && k < before.len() {
        models_that_are_left_are_usable(providers, access, models, n - 1, k, i);
    }
}

/// A payload's wire format.
#[derive(Debug)]
pub struct Codec {
    pub id: String,
    pub version: u64,
}

/// Index of the first format at or after `i` with this id and version.
pub open spec fn codec_at(codecs: Seq<Codec>, i: int, id: Seq<char>, version: u64) -> Option<int>
    decreases codecs.len() - i,
{
    if i < 0 || i >= codecs.len() {
        None
    } else if codecs[i].id@ == id && codecs[i].version == version {
        Some(i)
    } else {
        codec_at(codecs, i + 1, id, version)
    }
}

/// The first model that reads a payload: its format is the payload's, in id
/// and version. `codecs` holds the models' formats in order.
pub fn codec_owner(codecs: &Vec<Codec>, id: &str, version: u64) -> (r: Option<usize>)
    ensures
        (match r {
            Some(i) => Some(i as int),
            None => None,
        }) == codec_at(codecs@, 0, id@, version),
        r matches Some(i) ==> i < codecs@.len() && codecs@[i as int].id@ == id@
            && codecs@[i as int].version == version,
{
    let mut i: usize = 0;
    while i < codecs.len()
        invariant
            i <= codecs@.len(),
            codec_at(codecs@, 0, id@, version) == codec_at(codecs@, i as int, id@, version),
        decreases codecs@.len() - i,
    {
        if codecs[i].version == version && text::same(codecs[i].id.as_str(), id) {
            return Some(i);
        }
        i += 1;
    }
    None
}

/// A payload whose format some model has is read, by the first such model.
pub proof fn payloads_go_to_their_codec(
    codecs: Seq<Codec>,
    i: int,
    id: Seq<char>,
    version: u64,
    k: int,
)
    requires
        0 <= i <= k < codecs.len(),
        codecs[k].id@ == id,
        codecs[k].version == version,
    ensures
        codec_at(codecs, i, id, version) matches Some(found) && i <= found <= k
            && codecs[found].id@ == id && codecs[found].version == version,
    decreases codecs.len() - i,
{
    if !(codecs[i].id@ == id && codecs[i].version == version) {
        payloads_go_to_their_codec(codecs, i + 1, id, version, k);
    }
}

/// The model a session starts with: the preferred one if it is configured,
/// the default otherwise.
pub fn initial_model(
    models: &Vec<ModelChoice>,
    preferences: Option<&RuntimePreferences>,
    default_index: usize,
) -> (r: usize)
    ensures
        r == (match preferences {
            Some(p) => match desk::model_index(models@, 0, p.model_id@) {
                Some(i) => i,
                None => default_index as int,
            },
            None => default_index as int,
        }),
{
    match preferences {
        Some(p) => match find_model(models, p.model_id.as_str()) {
            Some(i) => i,
            None => default_index,
        },
        None => default_index,
    }
}

/// Whether all controls are in order.
pub open spec fn controls_ok(controls: Seq<EffortControl>) -> bool {
    forall|i: int| 0 <= i < controls.len() ==> (#[trigger] controls[i]).wf()
}

/// Selects the preferred effort of the model a session starts with.
pub fn restore_effort(
    controls: &mut Vec<EffortControl>,
    initial: usize,
    preferences: Option<&RuntimePreferences>,
) -> (r: Result<(), RuntimeError>)
    requires
        controls_ok(old(controls)@),
        initial < old(controls)@.len(),
    ensures
        controls_ok(final(controls)@),
        final(controls)@.len() == old(controls)@.len(),
        forall|i: int|
            0 <= i < old(controls)@.len() && i != initial ==> (#[trigger] final(controls)@[i])
                == old(controls)@[i],
        match preferences {
            None => r is Ok && final(controls)@ == old(controls)@,
            Some(p) => if old(controls)@[initial as int].allowed_view().contains(p.effort@) {
                &&& r is Ok
                &&& final(controls)@[initial as int].selected_view() == p.effort@
            } else {
                &&& r is Err
                &&& r->Err_0 is Preferences
                &&& r->Err_0.why() == "reasoning effort `"@ + p.effort@ + "` is not supported"@
                &&& final(controls)@ == old(controls)@
            },
        },
{
    match preferences {
        None => Ok(()),
        Some(p) => {
            let ghost before = controls@;
            let result = controls[initial].set(p.effort.as_str());
            proof {
                assert forall|i: int| 0 <= i < controls@.len() implies (
                #[trigger] controls@[i]).wf() by {
                    if i != initial {
                        assert(controls@[i] == before[i]);
                    }
                }
            }
            match result {
                Ok(()) => Ok(()),
                Err(e) => {
                    proof {
                        assert(controls@ =~= before);
                    }
                    Err(RuntimeError::Preferences(e))
                },
            }
        },
    }
}

/// What the host's work on a command came to.
#[derive(Debug)]
pub enum HostReply {
    /// The id under which a message was admitted.
    Sent(Result<String, String>),
    /// Whether a run was stopped.
    Interrupted(Result<bool, String>),
    /// The sequence through which context was compacted, if any was.
    Compacted(Result<Option<u64>, String>),
    /// The id of the model switched to.
    Switched(Result<String, String>),
    /// Nothing had to be done.
    Nothing,
}

/// The value of an outcome with a text.
pub open spec fn told(r: Result<String, String>) -> Result<Seq<char>, Seq<char>> {
    match r {
        Ok(s) => Ok(s@),
        Err(s) => Err(s@),
    }
}

/// What the interface is told about a compaction.
pub open spec fn compact_text(r: Result<Option<u64>, String>) -> Result<Seq<char>, Seq<char>> {
    match r {
        Ok(Some(through)) => Ok(
            "Compacted context through sequence "@ + text::decimal(through as nat) + "."@,
        ),
        Ok(None) => Ok("Context is already compact."@),
        Err(e) => Err(e@),
    }
}

/// What setting an effort comes to.
pub open spec fn effort_text(
    controls: Seq<EffortControl>,
    index: int,
    effort: Seq<char>,
) -> Result<Seq<char>, Seq<char>> {
    if index >= controls.len() {
        Err("model index "@ + text::decimal(index as nat) + " is not configured"@)
    } else if controls[index].allowed_view().contains(effort) {
        Ok("Set reasoning effort to "@ + effort + "."@)
    } else {
        Err("reasoning effort `"@ + effort + "` is not supported"@)
    }
}

/// Whether `result` tells the interface what became of a command.
pub open spec fn reports(
    result: CommandResult,
    command: Command,
    reply: HostReply,
    controls: Seq<EffortControl>,
) -> bool {
    match (command, reply, result) {
        (Command::Message(input), HostReply::Sent(sent), CommandResult::Message(r)) => {
            match (sent, r) {
                (Ok(id), Ok(message)) => message.message_id@ == id@ && message.text@ == input@,
                (Err(e), Err(f)) => f@ == e@,
                _ => false,
            }
        },
        (Command::Interrupt, HostReply::Interrupted(stopped), CommandResult::Interrupt(r)) => {
            r == stopped
        },
        (Command::Compact, HostReply::Compacted(done), CommandResult::Compact(r)) => {
            told(r) == compact_text(done)
        },
        (
            Command::SwitchModel { index, registry_id: _ },
            HostReply::Switched(done),
            CommandResult::SwitchModel { index: at, result: r },
        ) => {
            &&& at == index
            &&& told(r) == (match done {
                Ok(id) => Ok("Switched to "@ + id@ + "."@),
                Err(e) => Err(e@),
            })
        },
        (
            Command::SetEffort { index, effort },
            _,
            CommandResult::SetEffort { index: at, effort: chosen, result: r },
        ) => {
            &&& at == index
            &&& chosen@ == effort@
            &&& told(r) == effort_text(controls, index as int, effort@)
        },
        _ => false,
    }
}

/// Whether a reply belongs to a command.
pub open spec fn answered(command: Command, reply: HostReply) -> bool {
    match command {
        Command::Message(_) => reply is Sent,
        Command::Interrupt => reply is Interrupted,
        Command::Compact => reply is Compacted,
        Command::SwitchModel { index: _, registry_id: _ } => reply is Switched,
        Command::SetEffort { index: _, effort: _ } => true,
        _ => false,
    }
}

/// Selects an effort of a model.
fn set_effort(controls: &mut Vec<EffortControl>, index: usize, effort: &str) -> (r: Result<
    String,
    String,
>)
    requires
        controls_ok(old(controls)@),
    ensures
        controls_ok(final(controls)@),
        final(controls)@.len() == old(controls)@.len(),
        forall|i: int|
            0 <= i < old(controls)@.len() && i != index ==> (#[trigger] final(controls)@[i])
                == old(controls)@[i],
        r is Err ==> final(controls)@ == old(controls)@,
        r is Ok ==> index < final(controls)@.len() && final(controls)@[index as int].selected_view() == effort@,
        told(r) == effort_text(old(controls)@, index as int, effort@),
{
    if index >= controls.len() {
        return Err(
            text::concat3(
                "model index ",
                text::decimal_text(index as u64).as_str(),
                " is not configured",
            ),
        );
    }
    let ghost before = controls@;
    let result = controls[index].set(effort);
    proof {
        assert forall|i: int| 0 <= i < controls@.len() implies (#[trigger] controls@[i]).wf() by {
            if i != index {
                assert(controls@[i] == before[i]);
            }
        }
    }
    match result {
        Ok(()) => Ok(text::concat3("Set reasoning effort to ", effort, ".")),
        Err(e) => {
            proof {
                assert(controls@ =~= before);
            }
            Err(e)
        },
    }
}

/// What the interface is told about a command, given the host's reply. A new
/// effort is selected here. `None` for commands about sessions, and for a
/// reply that does not belong to the command.
pub fn execute(command: Command, reply: HostReply, controls: &mut Vec<EffortControl>) -> (r: Option<
    CommandResult,
>)
    requires
        controls_ok(old(controls)@),
    ensures
        controls_ok(final(controls)@),
        final(controls)@.len() == old(controls)@.len(),
        r is Some == answered(command, reply),
        r matches Some(result) ==> reports(result, command, reply, old(controls)@),
        !(command is SetEffort) ==> final(controls)@ == old(controls)@,
        command matches Command::SetEffort { index, effort } ==> {
            &&& forall|i: int|
                0 <= i < old(controls)@.len() && i != index ==> (#[trigger] final(controls)@[i])
                    == old(controls)@[i]
            &&& effort_text(old(controls)@, index as int, effort@) is Ok ==> final(controls)@[index as int].selected_view() == effort@
            &&& effort_text(old(controls)@, index as int, effort@) is Err ==> final(controls)@
                == old(controls)@
        },
{
    match command {
        Command::Message(input) => match reply {
            HostReply::Sent(sent) => Some(
                CommandResult::Message(
                    match sent {
                        Ok(message_id) => Ok(SentMessage { message_id, text: input }),
                        Err(e) => Err(e),
                    },
                ),
            ),
            _ => None,
        },
        Command::Interrupt => match reply {
            HostReply::Interrupted(stopped) => Some(CommandResult::Interrupt(stopped)),
            _ => None,
        },
        Command::Compact => match reply {
            HostReply::Compacted(done) => Some(
                CommandResult::Compact(
                    match done {
                        Ok(Some(through)) => Ok(
                            text::concat3(
                                "Compacted context through sequence ",
                                text::decimal_text(through).as_str(),
                                ".",
                            ),
                        ),
                        Ok(None) => Ok("Context is already compact.".to_owned()),
                        Err(e) => Err(e),
                    },
                ),
            ),
            _ => None,
        },
        Command::SwitchModel { index, registry_id: _ } => match reply {
            HostReply::Switched(done) => Some(
                CommandResult::SwitchModel {
                    index,
                    result: match done {
                        Ok(id) => Ok(text::concat3("Switched to ", id.as_str(), ".")),
                        Err(e) => Err(e),
                    },
                },
            ),
            _ => None,
        },
        Command::SetEffort { index, effort } => {
            let result = set_effort(controls, index, effort.as_str());
            Some(CommandResult::SetEffort { index, effort, result })
        },
        _ => None,
    }
}

/// Worker threads on a machine that offers `available` of them.
pub open spec fn worker_threads(available: Option<usize>) -> int {
    match available {
        Some(n) => if n < 1 {
            1
        } else if n > 4 {
            4
        } else {
            n as int
        },
        None => 2,
    }
}

/// Worker threads of the agent system: as many as the machine offers, from
/// one to four; two when it does not tell.
pub fn default_worker_threads(available: Option<usize>) -> (r: usize)
    ensures
        r == worker_threads(available),
{
    match available {
        Some(n) => if n < 1 {
            1
        } else if n > 4 {
            4
        } else {
            n
        },
        None => 2,
    }
}

/// One model as the instruction lists it.
pub open spec fn model_line(model: ModelChoice, default: bool) -> Seq<char> {
    "- provider: `"@ + model.provider@ + "`; model: `"@ + model.model@ + "`; selector: `"@
        + model.registry_id@ + "`"@ + (if default {
        " (default)"@
    } else {
        ""@
    }) + "; efforts: ["@ + text::join(text::texts(model.efforts@), ", "@) + "]"@
}

/// The models as the instruction lists them.
pub open spec fn model_lines(models: Seq<ModelChoice>, default: int) -> Seq<Seq<char>> {
    Seq::new(models.len(), |i: int| model_line(models[i], i == default))
}

/// The instruction to a coding agent in `cwd`.
pub open spec fn instruction(cwd: Seq<char>, models: Seq<ModelChoice>, default: int) -> Seq<char> {
    "You are a coding agent operating in `"@ + cwd
        + "`. Work within this directory unless the user explicitly directs you otherwise. Use the installed coding and multi-agent namespaces when they help complete the task.\n\nConfigured inference providers and models:\n"@
        + text::join(model_lines(models, default), "\n"@)
        + "\n\nFor `lam.agents.spawn` and `lam.agents.call`, pass the exact raw values shown above as `model: { provider: \"<provider>\", model: \"<model>\" }`. The selector is for model selection elsewhere; do not pass the selector in the `model` field. Omit `model` to use the configured default."@
}

fn line_of(model: &ModelChoice, default: bool) -> (r: String)
    ensures
        r@ == model_line(*model, default),
{
    let mut r = "- provider: `".to_owned();
    r.append(model.provider.as_str());
    r.append("`; model: `");
    r.append(model.model.as_str());
    r.append("`; selector: `");
    r.append(model.registry_id.as_str());
    r.append("`");
    r.append(
        if default {
            " (default)"
        } else {
            ""
        },
    );
    r.append("; efforts: [");
    r.append(text::joined(&model.efforts, ", ").as_str());
    r.append("]");
    r
}

/// The instruction to a coding agent: where it works, and the exact names
/// under which it can call for other models.
pub fn coding_instruction(cwd: &str, models: &Vec<ModelChoice>, default_model: usize) -> (r: String)
    ensures
        r@ == instruction(cwd@, models@, default_model as int),
{
    let ghost want = model_lines(models@, default_model as int);
    let mut lines: Vec<String> = Vec::new();
    let mut i: usize = 0;
    proof {
        assert(text::texts(lines@) =~= want.take(0));
    }
    while i < models.len()
        invariant
            i <= models@.len(),
            want == model_lines(models@, default_model as int),
            text::texts(lines@) == want.take(i as int),
        decreases models@.len() - i,
    {
        let ghost before = lines@;
        lines.push(line_of(&models[i], i == default_model));
        proof {
            assert(want.take(i + 1) =~= want.take(i as int).push(want[i as int]));
            assert(text::texts(lines@) =~= text::texts(before).push(want[i as int]));
        }
        i += 1;
    }
    proof {
        assert(want.take(want.len() as int) =~= want);
    }
    let mut r = "You are a coding agent operating in `".to_owned();
    r.append(cwd);
    r.append(
        "`. Work within this directory unless the user explicitly directs you otherwise. Use the installed coding and multi-agent namespaces when they help complete the task.\n\nConfigured inference providers and models:\n",
    );
    r.append(text::joined(&lines, "\n").as_str());
    r.append(
        "\n\nFor `lam.agents.spawn` and `lam.agents.call`, pass the exact raw values shown above as `model: { provider: \"<provider>\", model: \"<model>\" }`. The selector is for model selection elsewhere; do not pass the selector in the `model` field. Omit `model` to use the configured default.",
    );
    r
}

/// Whether the addresses before `n` are in order.
pub open spec fn ordered(list: Seq<AgentHistory>, n: int) -> bool {
    forall|i: int, j: int|
        0 <= i < j < n ==> !agents::lex_lt(
            (#[trigger] list[j]).address@,
            (#[trigger] list[i]).address@,
        )
}

/// The indices of `list` in an order of their addresses, and no agent lost.
pub open spec fn is_sorted_form(list: Seq<AgentHistory>, sorted: Seq<AgentHistory>) -> bool {
    &&& sorted.to_multiset() == list.to_multiset()
    &&& ordered(sorted, sorted.len() as int)
}

/// Position of the first of the first `n` agents whose address follows `a`.
fn slot_of(list: &Vec<AgentHistory>, n: usize, a: &str) -> (r: usize)
    requires
        n <= list@.len(),
        ordered(list@, n as int),
    ensures
        r <= n,
        forall|k: int| 0 <= k < r ==> !agents::lex_lt(a@, (#[trigger] list@[k]).address@),
        forall|k: int| r <= k < n ==> !agents::lex_lt((#[trigger] list@[k]).address@, a@),
{
    let mut i: usize = 0;
    while i < n
        invariant
            i <= n <= list@.len(),
            ordered(list@, n as int),
            forall|k: int| 0 <= k < i ==> !agents::lex_lt(a@, (#[trigger] list@[k]).address@),
        decreases n - i,
    {
        if precedes(a, list[i].address.as_str()) {
            proof {
                assert forall|k: int| i <= k < n implies !agents::lex_lt(
                    (#[trigger] list@[k]).address@,
                    a@,
                ) by {
                    agents::lemma_lex_asymmetric(a@, list@[i as int].address@);
                    if k > i {
                        assert(!agents::lex_lt(list@[k].address@, list@[i as int].address@));
                        if agents::lex_lt(list@[k].address@, a@) {
                            agents::lemma_lex_transitive(
                                list@[k].address@,
                                a@,
                                list@[i as int].address@,
                            );
                        }
                    }
                }
            }
            return i;
        }
        i += 1;
    }
    i
}

/// Puts agents into the order of their addresses.
pub fn sort_agents(list: Vec<AgentHistory>) -> (r: Vec<AgentHistory>)
    ensures
        is_sorted_form(list@, r@),
        r@.len() == list@.len(),
{
    let mut r = list;
    let ghost start = r@;
    let mut n: usize = 0;
    while n < r.len()
        invariant
            n <= r@.len(),
            r@.len() == start.len(),
            r@.to_multiset() == start.to_multiset(),
            ordered(r@, n as int),
        decreases r@.len() - n,
    {
        let at = slot_of(&r, n, r[n].address.as_str());
        let ghost before = r@;
        let moved = r.remove(n);
        let ghost without = r@;
        r.insert(at, moved);
        proof {
            broadcast use vstd::seq_lib::group_to_multiset_ensures;

            assert(r@ =~= without.insert(at as int, before[n as int]));
            assert(without =~= before.remove(n as int));
            vstd::seq_lib::to_multiset_remove(before, n as int);
            vstd::seq_lib::to_multiset_insert(without, at as int, before[n as int]);
            assert(r@.to_multiset() =~= before.to_multiset());
            assert(ordered(r@, n + 1)) by {
                assert forall|i: int, j: int| 0 <= i < j < n + 1 implies !agents::lex_lt(
                    (#[trigger] r@[j]).address@,
                    (#[trigger] r@[i]).address@,
                ) by {
                    if j == at {
                        assert(r@[i] == before[i]);
                    } else if i == at {
                        assert(r@[j] == before[j - 1]);
                    } else {
                        let a = if i < at {
                            i
                        } else {
                            i - 1
                        };
                        let b = if j < at {
                            j
                        } else {
                            j - 1
                        };
                        assert(r@[i] == before[a]);
                        assert(r@[j] == before[b]);
                    }
                }
            }
        }
        n += 1;
    }
    r
}

} // verus!
