//! Provider configuration: what a valid one is, and the models it offers.

use crate::auth;
use crate::auth::join_path;
use crate::text;
use vstd::prelude::*;
use vstd::string::*;

verus! {

/// One model the user can pick.
#[derive(Clone, Debug, PartialEq, Eq)]
pub struct ModelChoice {
    pub registry_id: String,
    pub provider: String,
    pub model: String,
    pub display_name: String,
    pub context_window: u64,
    pub efforts: Vec<String>,
}

/// The value of a [`ModelChoice`].
pub struct Choice {
    pub registry_id: Seq<char>,
    pub provider: Seq<char>,
    pub model: Seq<char>,
    pub display_name: Seq<char>,
    pub context_window: u64,
    pub efforts: Seq<Seq<char>>,
}

impl View for ModelChoice {
    type V = Choice;

    open spec fn view(&self) -> Choice {
        Choice {
            registry_id: self.registry_id@,
            provider: self.provider@,
            model: self.model@,
            display_name: self.display_name@,
            context_window: self.context_window,
            efforts: text::texts(self.efforts@),
        }
    }
}

/// The values of a list of choices.
pub open spec fn choices_of(v: Seq<ModelChoice>) -> Seq<Choice> {
    v.map_values(|m: ModelChoice| m@)
}

/// The wire protocol of a provider.
#[derive(Clone, Copy, Debug, PartialEq, Eq, Structural)]
pub enum ProviderProtocol {
    OpenaiResponses,
    /// OpenAI Codex subscription through the official Codex login cache.
    OpenaiCodex,
    OpenaiChatCompletions,
    /// SuperGrok subscription through the Grok CLI chat proxy.
    XaiSupergrok,
}

/// A value in a model's request options: a table, or the JSON text of
/// anything else.
#[derive(Debug)]
pub enum Setting {
    Table(Vec<Field>),
    Value(String),
}

/// One named request option.
#[derive(Debug)]
pub struct Field {
    pub name: String,
    pub value: Setting,
}

#[derive(Debug)]
pub struct ModelConfig {
    pub id: String,
    pub name: String,
    pub context_window: u64,
    pub efforts: Vec<String>,
    pub extra_body: Vec<Field>,
}

#[derive(Debug)]
pub struct ProviderConfig {
    pub name: String,
    pub protocol: ProviderProtocol,
    pub api_base: Option<String>,
    pub api_key: Option<String>,
    pub api_key_env: Option<String>,
    pub effort_path: Option<String>,
    pub models: Vec<ModelConfig>,
}

#[derive(Debug)]
pub struct ProvidersConfig {
    pub default_model: String,
    pub providers: Vec<ProviderConfig>,
}

/// Why a configuration cannot be used. `source` is the text of the cause.
#[derive(Debug, PartialEq, Eq)]
pub enum ConfigError {
    HomeUnavailable,
    Read { path: String, source: String },
    Parse { path: String, source: String },
    Invalid { message: String },
    MissingEnvironmentKey { provider: String, variable: String },
}

/// The value of a [`ConfigError`].
pub enum Fault {
    HomeUnavailable,
    Read(Seq<char>, Seq<char>),
    Parse(Seq<char>, Seq<char>),
    Invalid(Seq<char>),
    MissingEnvironmentKey(Seq<char>, Seq<char>),
}

impl View for ConfigError {
    type V = Fault;

    open spec fn view(&self) -> Fault {
        match self {
            ConfigError::HomeUnavailable => Fault::HomeUnavailable,
            ConfigError::Read { path, source } => Fault::Read(path@, source@),
            ConfigError::Parse { path, source } => Fault::Parse(path@, source@),
            ConfigError::Invalid { message } => Fault::Invalid(message@),
            ConfigError::MissingEnvironmentKey { provider, variable } => {
                Fault::MissingEnvironmentKey(provider@, variable@)
            },
        }
    }
}

impl Fault {
    /// The text of the error.
    pub open spec fn text(self) -> Seq<char> {
        match self {
            Fault::HomeUnavailable => {
                "could not determine the home directory for ~/.lam/providers.toml"@
            },
            Fault::Read(path, source) => "could not read provider configuration at `"@ + path
                + "`: "@ + source,
            Fault::Parse(path, source) => "could not parse provider configuration at `"@ + path
                + "`: "@ + source,
            Fault::Invalid(message) => "invalid provider configuration: "@ + message,
            Fault::MissingEnvironmentKey(provider, variable) => "provider `"@ + provider
                + "` expects API key environment variable `"@ + variable + "`"@,
        }
    }
}

impl ConfigError {
    /// The text of the error.
    pub fn message(&self) -> (r: String)
        ensures
            r@ == self@.text(),
    {
        match self {
            ConfigError::HomeUnavailable => {
                "could not determine the home directory for ~/.lam/providers.toml".to_owned()
            },
            ConfigError::Read { path, source } => {
                let mut r = "could not read provider configuration at `".to_owned();
                r.append(path.as_str());
                r.append("`: ");
                r.append(source.as_str());
                r
            },
            ConfigError::Parse { path, source } => {
                let mut r = "could not parse provider configuration at `".to_owned();
                r.append(path.as_str());
                r.append("`: ");
                r.append(source.as_str());
                r
            },
            ConfigError::Invalid { message } => {
                text::concat("invalid provider configuration: ", message.as_str())
            },
            ConfigError::MissingEnvironmentKey { provider, variable } => {
                let mut r = "provider `".to_owned();
                r.append(provider.as_str());
                r.append("` expects API key environment variable `");
                r.append(variable.as_str());
                r.append("`");
                r
            },
        }
    }
}

/// What an error says of a provider.
pub open spec fn of_provider(name: Seq<char>, what: Seq<char>) -> Fault {
    Fault::Invalid("provider `"@ + name + "` "@ + what)
}

/// What an error says of a model.
pub open spec fn of_model(provider: Seq<char>, id: Seq<char>, what: Seq<char>) -> Fault {
    Fault::Invalid("model `"@ + provider + "/"@ + id + "` "@ + what)
}

fn invalid(message: String) -> (r: ConfigError)
    ensures
        r@ == Fault::Invalid(message@),
{
    ConfigError::Invalid { message }
}

fn provider_error(name: &str, what: &str) -> (r: ConfigError)
    ensures
        r@ == of_provider(name@, what@),
{
    let mut message = "provider `".to_owned();
    message.append(name);
    message.append("` ");
    message.append(what);
    invalid(message)
}

fn model_error(provider: &str, id: &str, what: &str) -> (r: ConfigError)
    ensures
        r@ == of_model(provider@, id@, what@),
{
    let mut message = "model `".to_owned();
    message.append(provider);
    message.append("/");
    message.append(id);
    message.append("` ");
    message.append(what);
    invalid(message)
}

/// Whether a text is empty or has space around it.
pub open spec fn padded(s: Seq<char>) -> bool {
    text::trim(s).len() == 0 || text::trim(s) != s
}

fn is_padded(s: &str) -> (r: bool)
    ensures
        r == padded(s@),
{
    let trimmed = text::trimmed(s);
    trimmed.as_str().is_empty() || !text::same(trimmed.as_str(), s)
}

/// What is wrong with a provider's name.
pub open spec fn name_fault(name: Seq<char>) -> Option<Fault> {
    if text::is_blank(name) || name.contains('/') {
        Some(
            Fault::Invalid(
                "provider name `"@ + name + "` must be nonempty and must not contain `/`"@,
            ),
        )
    } else {
        None
    }
}

/// What is wrong with a model's id.
pub open spec fn id_fault(id: Seq<char>) -> Option<Fault> {
    if padded(id) {
        Some(
            Fault::Invalid(
                "model id `"@ + id
                    + "` must be nonempty and must not have surrounding whitespace"@,
            ),
        )
    } else {
        None
    }
}

/// A check's outcome as a mathematical value.
pub open spec fn fault_of(r: Result<(), ConfigError>) -> Option<Fault> {
    match r {
        Ok(_) => None,
        Err(e) => Some(e@),
    }
}

pub fn validate_provider_name(value: &str) -> (r: Result<(), ConfigError>)
    ensures
        fault_of(r) == name_fault(value@),
{
    if text::blank(value) || text::has_char(value, '/') {
        return Err(
            invalid(
                text::concat3(
                    "provider name `",
                    value,
                    "` must be nonempty and must not contain `/`",
                ),
            ),
        );
    }
    Ok(())
}

pub fn validate_model_id(value: &str) -> (r: Result<(), ConfigError>)
    ensures
        fault_of(r) == id_fault(value@),
{
    if is_padded(value) {
        return Err(
            invalid(
                text::concat3(
                    "model id `",
                    value,
                    "` must be nonempty and must not have surrounding whitespace",
                ),
            ),
        );
    }
    Ok(())
}

/// What is wrong with a provider's key fields.
pub open spec fn key_fault(p: ProviderConfig) -> Option<Fault> {
    match (p.api_key, p.api_key_env) {
        (Some(_), Some(_)) => Some(
            of_provider(p.name@, "must set only one of api_key or api_key_env"@),
        ),
        (Some(key), None) => if text::is_blank(key@) {
            Some(of_provider(p.name@, "has an empty api_key"@))
        } else {
            None
        },
        (None, Some(variable)) => if text::is_blank(variable@) {
            Some(of_provider(p.name@, "has an empty api_key_env"@))
        } else {
            None
        },
        (None, None) => None,
    }
}

/// The path of the effort in a provider's requests.
pub open spec fn effort_path_text(p: ProviderConfig) -> Seq<char> {
    match p.effort_path {
        Some(path) => path@,
        None => match p.protocol {
            ProviderProtocol::OpenaiChatCompletions => "reasoning_effort"@,
            _ => "reasoning.effort"@,
        },
    }
}

/// The segments of that path.
pub open spec fn effort_segments(p: ProviderConfig) -> Seq<Seq<char>> {
    text::split(effort_path_text(p), '.')
}

/// What is wrong with that path.
pub open spec fn effort_path_fault(p: ProviderConfig) -> Option<Fault> {
    let segments = effort_segments(p);
    if exists|i: int| 0 <= i < segments.len() && padded(#[trigger] segments[i]) {
        Some(
            of_provider(p.name@, "has invalid effort_path `"@ + effort_path_text(p) + "`"@),
        )
    } else {
        None
    }
}

impl ProviderConfig {
    /// Rejects contradictory or empty key fields. A missing environment
    /// variable is no error here.
    pub fn validate_api_key_fields(&self) -> (r: Result<(), ConfigError>)
        ensures
            fault_of(r) == key_fault(*self),
    {
        let name = self.name.as_str();
        match (&self.api_key, &self.api_key_env) {
            (Some(_), Some(_)) => Err(
                provider_error(name, "must set only one of api_key or api_key_env"),
            ),
            (Some(key), None) => if text::blank(key.as_str()) {
                Err(provider_error(name, "has an empty api_key"))
            } else {
                Ok(())
            },
            (None, Some(variable)) => if text::blank(variable.as_str()) {
                Err(provider_error(name, "has an empty api_key_env"))
            } else {
                Ok(())
            },
            (None, None) => Ok(()),
        }
    }

    /// The provider's API key. `environment` is the value of the variable
    /// that `api_key_env` names, if it is set.
    pub fn resolved_api_key(&self, environment: Option<&str>) -> (r: Result<
        Option<String>,
        ConfigError,
    >)
        ensures
            match key_fault(*self) {
                Some(fault) => r is Err && r->Err_0@ == fault,
                None => match (self.api_key, self.api_key_env) {
                    (Some(key), _) => r is Ok && text::opt_text(r->Ok_0) == Some(key@),
                    (None, Some(variable)) => match environment {
                        Some(value) => if text::is_blank(value@) {
                            r is Err && r->Err_0@ == Fault::MissingEnvironmentKey(
                                self.name@,
                                variable@,
                            )
                        } else {
                            r is Ok && text::opt_text(r->Ok_0) == Some(value@)
                        },
                        None => r is Err && r->Err_0@ == Fault::MissingEnvironmentKey(
                            self.name@,
                            variable@,
                        ),
                    },
                    (None, None) => r is Ok && r->Ok_0 is None,
                },
            },
    {
        match self.validate_api_key_fields() {
            Err(e) => {
                return Err(e);
            },
            Ok(()) => {},
        }
        if let Some(key) = &self.api_key {
            return Ok(Some(key.clone()));
        }
        match &self.api_key_env {
            None => Ok(None),
            Some(variable) => {
                if let Some(value) = environment {
                    if !text::blank(value) {
                        return Ok(Some(value.to_owned()));
                    }
                }
                Err(
                    ConfigError::MissingEnvironmentKey {
                        provider: self.name.clone(),
                        variable: variable.clone(),
                    },
                )
            },
        }
    }

    /// The path at which the effort is put into a request.
    pub fn resolved_effort_path(&self) -> (r: Result<Vec<String>, ConfigError>)
        ensures
            match effort_path_fault(*self) {
                Some(fault) => r is Err && r->Err_0@ == fault,
                None => r is Ok && text::texts(r->Ok_0@) == effort_segments(*self)
                    && r->Ok_0@.len() > 0,
            },
    {
        let path = match &self.effort_path {
            Some(path) => path.clone(),
            None => match self.protocol {
                ProviderProtocol::OpenaiChatCompletions => "reasoning_effort".to_owned(),
                _ => "reasoning.effort".to_owned(),
            },
        };
        let segments = text::split_on(path.as_str(), '.');
        let ghost all = text::texts(segments@);
        let mut i: usize = 0;
        proof {
            assert(all.len() == segments@.len());
        }
        while i < segments.len()
            invariant
                i <= segments@.len(),
                path@ == effort_path_text(*self),
                all == text::texts(segments@),
                all.len() == segments@.len(),
                all == effort_segments(*self),
                forall|k: int| 0 <= k < i ==> !padded(#[trigger] all[k]),
            decreases segments@.len() - i,
        {
            proof {
                assert(all[i as int] == segments@[i as int]@);
            }
            if is_padded(segments[i].as_str()) {
                return Err(
                    provider_error(
                        self.name.as_str(),
                        text::concat3("has invalid effort_path `", path.as_str(), "`").as_str(),
                    ),
                );
            }
            i += 1;
        }
        Ok(segments)
    }
}

/// Whether the first `n` texts hold `s`.
pub open spec fn seen(list: Seq<String>, n: int, s: Seq<char>) -> bool {
    exists|i: int| 0 <= i < n && (#[trigger] list[i])@ == s
}

fn occurs_before(list: &Vec<String>, n: usize, s: &str) -> (r: bool)
    requires
        n <= list@.len(),
    ensures
        r == seen(list@, n as int, s@),
{
    let mut i: usize = 0;
    while i < n
        invariant
            i <= n <= list@.len(),
            forall|k: int| 0 <= k < i ==> (#[trigger] list@[k])@ != s@,
        decreases n - i,
    {
        if text::same(list[i].as_str(), s) {
            return true;
        }
        i += 1;
    }
    false
}

/// What is wrong with a model's efforts from `i` on.
pub open spec fn effort_fault(provider: Seq<char>, m: ModelConfig, i: int) -> Option<Fault>
    decreases m.efforts@.len() - i,
{
    if i < 0 || i >= m.efforts@.len() {
        None
    } else if padded(m.efforts@[i]@) {
        Some(of_model(provider, m.id@, "has an empty or padded effort"@))
    } else if seen(m.efforts@, i, m.efforts@[i]@) {
        Some(
            of_model(
                provider,
                m.id@,
                "configures effort `"@ + m.efforts@[i]@ + "` more than once"@,
            ),
        )
    } else {
        effort_fault(provider, m, i + 1)
    }
}

/// What is wrong with a model's efforts.
pub open spec fn efforts_fault(provider: Seq<char>, m: ModelConfig) -> Option<Fault> {
    if m.efforts@.len() == 0 {
        Some(of_model(provider, m.id@, "must configure at least one effort"@))
    } else {
        effort_fault(provider, m, 0)
    }
}

fn validate_efforts(provider: &str, model: &ModelConfig) -> (r: Result<(), ConfigError>)
    ensures
        fault_of(r) == efforts_fault(provider@, *model),
{
    let id = model.id.as_str();
    if model.efforts.len() == 0 {
        return Err(model_error(provider, id, "must configure at least one effort"));
    }
    let mut i: usize = 0;
    while i < model.efforts.len()
        invariant
            i <= model.efforts@.len(),
            id@ == model.id@,
            effort_fault(provider@, *model, 0) == effort_fault(provider@, *model, i as int),
            efforts_fault(provider@, *model) == effort_fault(provider@, *model, 0),
        decreases model.efforts@.len() - i,
    {
        let effort = model.efforts[i].as_str();
        if is_padded(effort) {
            return Err(model_error(provider, id, "has an empty or padded effort"));
        }
        if occurs_before(&model.efforts, i, effort) {
            return Err(
                model_error(
                    provider,
                    id,
                    text::concat3("configures effort `", effort, "` more than once").as_str(),
                ),
            );
        }
        i += 1;
    }
    Ok(())
}

/// Index of the field called `name`, from `i` on.
pub open spec fn field_at(fields: Seq<Field>, i: int, name: Seq<char>) -> Option<int>
    decreases fields.len() - i,
{
    if i < 0 || i >= fields.len() {
        None
    } else if fields[i].name@ == name {
        Some(i)
    } else {
        field_at(fields, i + 1, name)
    }
}

fn find_field(fields: &Vec<Field>, name: &str) -> (r: Option<usize>)
    ensures
        (match r {
            Some(i) => Some(i as int),
            None => None,
        }) == field_at(fields@, 0, name@),
        r matches Some(i) ==> i < fields@.len(),
{
    let mut i: usize = 0;
    while i < fields.len()
        invariant
            i <= fields@.len(),
            field_at(fields@, 0, name@) == field_at(fields@, i as int, name@),
        decreases fields@.len() - i,
    {
        if text::same(fields[i].name.as_str(), name) {
            return Some(i);
        }
        i += 1;
    }
    None
}

/// Why an effort cannot be put at `path[i..]` of a table of request options:
/// the place is taken, or something in its way is no table.
pub enum Slot {
    Free,
    Taken,
    Blocked,
}

pub open spec fn slot_at(fields: Seq<Field>, path: Seq<Seq<char>>, i: int) -> Slot
    decreases path.len() - i,
{
    if i < 0 || i >= path.len() {
        Slot::Free
    } else {
        match field_at(fields, 0, path[i]) {
            None => Slot::Free,
            Some(k) => if i + 1 == path.len() {
                Slot::Taken
            } else {
                match fields[k].value {
                    Setting::Table(inner) => slot_at(inner@, path, i + 1),
                    Setting::Value(_) => Slot::Blocked,
                }
            },
        }
    }
}

/// What keeps a model's request options from taking its effort.
pub open spec fn slot_fault(
    provider: Seq<char>,
    m: ModelConfig,
    path: Seq<Seq<char>>,
) -> Option<Fault> {
    let shown = text::join(path, "."@);
    match slot_at(m.extra_body@, path, 0) {
        Slot::Free => None,
        Slot::Taken => Some(
            of_model(
                provider,
                m.id@,
                "configures `"@ + shown + "` in extra_body; use its efforts list instead"@,
            ),
        ),
        Slot::Blocked => Some(
            of_model(
                provider,
                m.id@,
                "cannot apply effort_path `"@ + shown
                    + "` through a non-table extra_body field"@,
            ),
        ),
    }
}

fn validate_effort_slot(provider: &str, model: &ModelConfig, path: &Vec<String>) -> (r: Result<
    (),
    ConfigError,
>)
    ensures
        fault_of(r) == slot_fault(provider@, *model, text::texts(path@)),
{
    let ghost all = text::texts(path@);
    let mut table = &model.extra_body;
    let mut i: usize = 0;
    proof {
        assert(all.len() == path@.len());
    }
    while i < path.len()
        invariant
            i <= path@.len(),
            all == text::texts(path@),
            all.len() == path@.len(),
            slot_at(model.extra_body@, all, 0) == slot_at(table@, all, i as int),
        decreases path@.len() - i,
    {
        proof {
            assert(all[i as int] == path@[i as int]@);
        }
        match find_field(table, path[i].as_str()) {
            None => {
                return Ok(());
            },
            Some(k) => {
                if i + 1 == path.len() {
                    let shown = text::joined(path, ".");
                    return Err(
                        model_error(
                            provider,
                            model.id.as_str(),
                            text::concat3(
                                "configures `",
                                shown.as_str(),
                                "` in extra_body; use its efforts list instead",
                            ).as_str(),
                        ),
                    );
                }
                match &table[k].value {
                    Setting::Table(inner) => {
                        table = inner;
                    },
                    Setting::Value(_) => {
                        let shown = text::joined(path, ".");
                        return Err(
                            model_error(
                                provider,
                                model.id.as_str(),
                                text::concat3(
                                    "cannot apply effort_path `",
                                    shown.as_str(),
                                    "` through a non-table extra_body field",
                                ).as_str(),
                            ),
                        );
                    },
                }
            },
        }
        i += 1;
    }
    Ok(())
}

/// Whether one of the first `n` models has the id `id`.
pub open spec fn model_seen(models: Seq<ModelConfig>, n: int, id: Seq<char>) -> bool {
    exists|i: int| 0 <= i < n && (#[trigger] models[i]).id@ == id
}

/// Whether one of the first `n` providers has the name `name`.
pub open spec fn provider_seen(providers: Seq<ProviderConfig>, n: int, name: Seq<char>) -> bool {
    exists|i: int| 0 <= i < n && (#[trigger] providers[i]).name@ == name
}

/// What is wrong with model `j` of a provider. The checks come in this order.
pub open spec fn model_fault(p: ProviderConfig, j: int) -> Option<Fault> {
    let m = p.models@[j];
    if id_fault(m.id@) is Some {
        id_fault(m.id@)
    } else if text::is_blank(m.name@) {
        Some(of_model(p.name@, m.id@, "has an empty display name"@))
    } else if m.context_window == 0 {
        Some(of_model(p.name@, m.id@, "has a zero context_window"@))
    } else if efforts_fault(p.name@, m) is Some {
        efforts_fault(p.name@, m)
    } else if slot_fault(p.name@, m, effort_segments(p)) is Some {
        slot_fault(p.name@, m, effort_segments(p))
    } else if model_seen(p.models@, j, m.id@) {
        Some(of_model(p.name@, m.id@, "is configured more than once"@))
    } else {
        None
    }
}

/// What is wrong with the models of a provider from `j` on.
pub open spec fn models_fault(p: ProviderConfig, j: int) -> Option<Fault>
    decreases p.models@.len() - j,
{
    if j < 0 || j >= p.models@.len() {
        None
    } else if model_fault(p, j) is Some {
        model_fault(p, j)
    } else {
        models_fault(p, j + 1)
    }
}

/// What is wrong with a provider's credentials.
pub open spec fn credentials_fault(p: ProviderConfig) -> Option<Fault> {
    match p.protocol {
        ProviderProtocol::OpenaiCodex => if p.api_key is Some || p.api_key_env is Some {
            Some(
                of_provider(
                    p.name@,
                    "uses Codex subscription credentials and must not set api_key or api_key_env"@,
                ),
            )
        } else if p.api_base is Some {
            Some(
                of_provider(
                    p.name@,
                    "must not override api_base because Codex credentials are restricted to the ChatGPT Codex endpoint"@,
                ),
            )
        } else {
            None
        },
        ProviderProtocol::XaiSupergrok => None,
        ProviderProtocol::OpenaiResponses => key_fault(p),
        ProviderProtocol::OpenaiChatCompletions => key_fault(p),
    }
}

/// What is wrong with provider `i`, its models aside.
pub open spec fn provider_fault(providers: Seq<ProviderConfig>, i: int) -> Option<Fault> {
    let p = providers[i];
    if name_fault(p.name@) is Some {
        name_fault(p.name@)
    } else if provider_seen(providers, i, p.name@) {
        Some(of_provider(p.name@, "is configured more than once"@))
    } else if p.models@.len() == 0 {
        Some(of_provider(p.name@, "must configure at least one model"@))
    } else if credentials_fault(p) is Some {
        credentials_fault(p)
    } else {
        effort_path_fault(p)
    }
}

/// The first thing that is wrong with the providers from `i` on.
pub open spec fn providers_fault(providers: Seq<ProviderConfig>, i: int) -> Option<Fault>
    decreases providers.len() - i,
{
    if i < 0 || i >= providers.len() {
        None
    } else if provider_fault(providers, i) is Some {
        provider_fault(providers, i)
    } else if models_fault(providers[i], 0) is Some {
        models_fault(providers[i], 0)
    } else {
        providers_fault(providers, i + 1)
    }
}

/// The choice that model `j` of a provider is.
pub open spec fn model_choice(p: ProviderConfig, j: int) -> Choice {
    let m = p.models@[j];
    Choice {
        registry_id: p.name@ + "/"@ + m.id@,
        provider: p.name@,
        model: m.id@,
        display_name: m.name@,
        context_window: m.context_window,
        efforts: text::texts(m.efforts@),
    }
}

/// The choices of a provider.
pub open spec fn provider_choices(p: ProviderConfig) -> Seq<Choice> {
    Seq::new(p.models@.len(), |j: int| model_choice(p, j))
}

/// The choices of the first `n` providers, in the order of the configuration.
pub open spec fn catalog(providers: Seq<ProviderConfig>, n: int) -> Seq<Choice>
    decreases n,
{
    if n <= 0 {
        Seq::empty()
    } else {
        catalog(providers, n - 1) + provider_choices(providers[n - 1])
    }
}

/// Index of the choice with this id, from `i` on.
pub open spec fn choice_at(choices: Seq<Choice>, i: int, id: Seq<char>) -> Option<int>
    decreases choices.len() - i,
{
    if i < 0 || i >= choices.len() {
        None
    } else if choices[i].registry_id == id {
        Some(i)
    } else {
        choice_at(choices, i + 1, id)
    }
}

/// What is wrong with a configuration.
pub open spec fn config_fault(config: ProvidersConfig) -> Option<Fault> {
    let providers = config.providers@;
    let choices = catalog(providers, providers.len() as int);
    if providers.len() == 0 {
        Some(Fault::Invalid("at least one provider is required"@))
    } else if providers_fault(providers, 0) is Some {
        providers_fault(providers, 0)
    } else if choice_at(choices, 0, config.default_model@) is None {
        Some(
            Fault::Invalid(
                "default_model `"@ + config.default_model@
                    + "` is not present in the provider model list"@,
            ),
        )
    } else {
        None
    }
}

fn check_model(p: &ProviderConfig, j: usize, path: &Vec<String>) -> (r: Result<(), ConfigError>)
    requires
        j < p.models@.len(),
        text::texts(path@) == effort_segments(*p),
    ensures
        fault_of(r) == model_fault(*p, j as int),
{
    let model = &p.models[j];
    let name = p.name.as_str();
    let id = model.id.as_str();
    if let Err(e) = validate_model_id(id) {
        return Err(e);
    }
    if text::blank(model.name.as_str()) {
        return Err(model_error(name, id, "has an empty display name"));
    }
    if model.context_window == 0 {
        return Err(model_error(name, id, "has a zero context_window"));
    }
    if let Err(e) = validate_efforts(name, model) {
        return Err(e);
    }
    if let Err(e) = validate_effort_slot(name, model, path) {
        return Err(e);
    }
    let mut i: usize = 0;
    while i < j
        invariant
            i <= j < p.models@.len(),
            id@ == p.models@[j as int].id@,
            name@ == p.name@,
            id_fault(id@) is None,
            !text::is_blank(p.models@[j as int].name@),
            p.models@[j as int].context_window != 0,
            efforts_fault(name@, p.models@[j as int]) is None,
            slot_fault(name@, p.models@[j as int], effort_segments(*p)) is None,
            forall|k: int| 0 <= k < i ==> (#[trigger] p.models@[k]).id@ != id@,
        decreases j - i,
    {
        if text::same(p.models[i].id.as_str(), id) {
            return Err(model_error(name, id, "is configured more than once"));
        }
        i += 1;
    }
    Ok(())
}

fn check_credentials(p: &ProviderConfig) -> (r: Result<(), ConfigError>)
    ensures
        fault_of(r) == credentials_fault(*p),
{
    match p.protocol {
        ProviderProtocol::OpenaiCodex => {
            if p.api_key.is_some() || p.api_key_env.is_some() {
                return Err(
                    provider_error(
                        p.name.as_str(),
                        "uses Codex subscription credentials and must not set api_key or api_key_env",
                    ),
                );
            }
            if p.api_base.is_some() {
                return Err(
                    provider_error(
                        p.name.as_str(),
                        "must not override api_base because Codex credentials are restricted to the ChatGPT Codex endpoint",
                    ),
                );
            }
            Ok(())
        },
        ProviderProtocol::XaiSupergrok => Ok(()),
        ProviderProtocol::OpenaiResponses => p.validate_api_key_fields(),
        ProviderProtocol::OpenaiChatCompletions => p.validate_api_key_fields(),
    }
}

fn name_occurs(providers: &Vec<ProviderConfig>, n: usize, name: &str) -> (r: bool)
    requires
        n <= providers@.len(),
    ensures
        r == provider_seen(providers@, n as int, name@),
{
    let mut i: usize = 0;
    while i < n
        invariant
            i <= n <= providers@.len(),
            forall|k: int| 0 <= k < i ==> (#[trigger] providers@[k]).name@ != name@,
        decreases n - i,
    {
        if text::same(providers[i].name.as_str(), name) {
            return true;
        }
        i += 1;
    }
    false
}

/// Checks provider `i`, its models aside, and returns its effort path.
fn check_provider(providers: &Vec<ProviderConfig>, i: usize) -> (r: Result<
    Vec<String>,
    ConfigError,
>)
    requires
        i < providers@.len(),
    ensures
        match provider_fault(providers@, i as int) {
            Some(fault) => r is Err && r->Err_0@ == fault,
            None => r is Ok && text::texts(r->Ok_0@) == effort_segments(providers@[i as int]),
        },
{
    let p = &providers[i];
    if let Err(e) = validate_provider_name(p.name.as_str()) {
        return Err(e);
    }
    if name_occurs(providers, i, p.name.as_str()) {
        return Err(provider_error(p.name.as_str(), "is configured more than once"));
    }
    if p.models.len() == 0 {
        return Err(provider_error(p.name.as_str(), "must configure at least one model"));
    }
    if let Err(e) = check_credentials(p) {
        return Err(e);
    }
    p.resolved_effort_path()
}

fn copy_texts(v: &Vec<String>) -> (r: Vec<String>)
    ensures
        text::texts(r@) == text::texts(v@),
{
    let mut r: Vec<String> = Vec::new();
    let mut i: usize = 0;
    proof {
        assert(text::texts(r@) =~= text::texts(v@).take(0));
    }
    while i < v.len()
        invariant
            i <= v@.len(),
            text::texts(r@) == text::texts(v@).take(i as int),
        decreases v@.len() - i,
    {
        let ghost before = r@;
        r.push(v[i].clone());
        proof {
            let all = text::texts(v@);
            assert(all[i as int] == v@[i as int]@);
            assert(all.take(i + 1) =~= all.take(i as int).push(all[i as int]));
            assert(text::texts(r@) =~= text::texts(before).push(all[i as int]));
        }
        i += 1;
    }
    proof {
        assert(text::texts(v@).take(v@.len() as int) =~= text::texts(v@));
    }
    r
}

fn build_choice(p: &ProviderConfig, j: usize) -> (r: ModelChoice)
    requires
        j < p.models@.len(),
    ensures
        r@ == model_choice(*p, j as int),
{
    let m = &p.models[j];
    ModelChoice {
        registry_id: text::concat3(p.name.as_str(), "/", m.id.as_str()),
        provider: p.name.clone(),
        model: m.id.clone(),
        display_name: m.name.clone(),
        context_window: m.context_window,
        efforts: copy_texts(&m.efforts),
    }
}

/// Checks the models of a provider and adds its choices.
fn add_models(p: &ProviderConfig, path: &Vec<String>, models: &mut Vec<ModelChoice>) -> (r: Result<
    (),
    ConfigError,
>)
    requires
        text::texts(path@) == effort_segments(*p),
    ensures
        fault_of(r) == models_fault(*p, 0),
        r is Ok ==> choices_of(final(models)@) == choices_of(old(models)@) + provider_choices(*p),
{
    let ghost start = choices_of(models@);
    let ghost all = provider_choices(*p);
    let mut j: usize = 0;
    proof {
        assert(choices_of(models@) =~= start + all.take(0));
    }
    while j < p.models.len()
        invariant
            j <= p.models@.len(),
            text::texts(path@) == effort_segments(*p),
            all == provider_choices(*p),
            models_fault(*p, 0) == models_fault(*p, j as int),
            choices_of(models@) == start + all.take(j as int),
        decreases p.models@.len() - j,
    {
        if let Err(e) = check_model(p, j, path) {
            return Err(e);
        }
        let ghost before = models@;
        models.push(build_choice(p, j));
        proof {
            assert(all.take(j + 1) =~= all.take(j as int).push(all[j as int]));
            assert(choices_of(models@) =~= choices_of(before).push(all[j as int]));
            assert(choices_of(models@) =~= start + all.take(j + 1));
        }
        j += 1;
    }
    proof {
        assert(all.take(all.len() as int) =~= all);
    }
    Ok(())
}

fn find_choice(models: &Vec<ModelChoice>, id: &str) -> (r: Option<usize>)
    ensures
        (match r {
            Some(i) => Some(i as int),
            None => None,
        }) == choice_at(choices_of(models@), 0, id@),
        r matches Some(i) ==> i < models@.len(),
{
    let ghost all = choices_of(models@);
    let mut i: usize = 0;
    proof {
        assert(all.len() == models@.len());
    }
    while i < models.len()
        invariant
            i <= models@.len(),
            all == choices_of(models@),
            all.len() == models@.len(),
            choice_at(all, 0, id@) == choice_at(all, i as int, id@),
        decreases models@.len() - i,
    {
        proof {
            assert(all[i as int] == models@[i as int]@);
        }
        if text::same(models[i].registry_id.as_str(), id) {
            return Some(i);
        }
        i += 1;
    }
    None
}

/// Checks a configuration and lists the models it offers, with the index of
/// the default one.
pub fn validate(config: &ProvidersConfig) -> (r: Result<(Vec<ModelChoice>, usize), ConfigError>)
    ensures
        match config_fault(*config) {
            Some(fault) => r is Err && r->Err_0@ == fault,
            None => {
                let all = catalog(config.providers@, config.providers@.len() as int);
                &&& r is Ok
                &&& choices_of(r->Ok_0.0@) == all
                &&& choice_at(all, 0, config.default_model@) == Some(r->Ok_0.1 as int)
                &&& r->Ok_0.1 < r->Ok_0.0@.len()
            },
        },
{
    if config.providers.len() == 0 {
        return Err(invalid("at least one provider is required".to_owned()));
    }
    let ghost providers = config.providers@;
    let mut models: Vec<ModelChoice> = Vec::new();
    let mut i: usize = 0;
    proof {
        assert(choices_of(models@) =~= Seq::empty());
    }
    while i < config.providers.len()
        invariant
            i <= config.providers@.len(),
            providers == config.providers@,
            providers.len() > 0,
            providers_fault(providers, 0) == providers_fault(providers, i as int),
            choices_of(models@) == catalog(providers, i as int),
        decreases config.providers@.len() - i,
    {
        let path = match check_provider(&config.providers, i) {
            Err(e) => {
                return Err(e);
            },
            Ok(path) => path,
        };
        if let Err(e) = add_models(&config.providers[i], &path, &mut models) {
            return Err(e);
        }
        i += 1;
    }
    match find_choice(&models, config.default_model.as_str()) {
        Some(index) => Ok((models, index)),
        None => Err(
            invalid(
                text::concat3(
                    "default_model `",
                    config.default_model.as_str(),
                    "` is not present in the provider model list",
                ),
            ),
        ),
    }
}

/// The names of the providers.
pub open spec fn names(config: ProvidersConfig) -> Seq<Seq<char>> {
    config.providers@.map_values(|p: ProviderConfig| p.name@)
}

/// The name `base` with a number behind it.
pub open spec fn numbered(base: Seq<char>, n: nat) -> Seq<char> {
    base + "-"@ + text::decimal(n)
}

/// The first number from `n` on that makes `base` a name not yet taken. One
/// of as many numbers as there are names, and one more, does.
pub open spec fn free_number(taken: Seq<Seq<char>>, base: Seq<char>, n: int) -> int
    decreases taken.len() + 2 - n,
{
    if n >= taken.len() + 2 || !taken.contains(numbered(base, n as nat)) {
        n
    } else {
        free_number(taken, base, n + 1)
    }
}

/// `preferred`, or the first of its variants that is not taken.
pub open spec fn unique_name(taken: Seq<Seq<char>>, preferred: Seq<char>) -> Seq<char> {
    let base = preferred + "-subscription"@;
    if !taken.contains(preferred) {
        preferred
    } else if !taken.contains(base) {
        base
    } else {
        numbered(base, free_number(taken, base, 2) as nat)
    }
}

pub proof fn lemma_decimal_value(n: nat)
    ensures
        text::digits_value(text::decimal(n)) == n,
        text::decimal(n).len() > 0,
    decreases n,
{
    let d = text::decimal(n);
    if n < 10 {
        assert(d.drop_last() =~= Seq::empty());
        assert(text::digits_value(d.drop_last()) == 0);
    } else {
        lemma_decimal_value(n / 10);
        assert(d.drop_last() =~= text::decimal(n / 10));
    }
}

proof fn lemma_numbered_injective(base: Seq<char>, a: nat, b: nat)
    requires
        numbered(base, a) == numbered(base, b),
    ensures
        a == b,
{
    let lead = base + "-"@;
    lemma_decimal_value(a);
    lemma_decimal_value(b);
    assert(numbered(base, a).skip(lead.len() as int) =~= text::decimal(a));
    assert(numbered(base, b).skip(lead.len() as int) =~= text::decimal(b));
}

proof fn lemma_taken_until(taken: Seq<Seq<char>>, base: Seq<char>, n: int, m: int)
    requires
        2 <= n <= m,
        m < free_number(taken, base, n),
    ensures
        taken.contains(numbered(base, m as nat)),
    decreases m - n,
{
    if n < m {
        lemma_taken_until(taken, base, n + 1, m);
    }
}

proof fn lemma_free_number_bound(taken: Seq<Seq<char>>, base: Seq<char>, n: int)
    requires
        2 <= n <= taken.len() + 2,
    ensures
        n <= free_number(taken, base, n) <= taken.len() + 2,
    decreases taken.len() + 2 - n,
{
    if n < taken.len() + 2 && taken.contains(numbered(base, n as nat)) {
        lemma_free_number_bound(taken, base, n + 1);
    }
}

/// The name given to an added provider is never that of another one.
pub proof fn unique_names_are_free(taken: Seq<Seq<char>>, preferred: Seq<char>)
    ensures
        !taken.contains(unique_name(taken, preferred)),
{
    let base = preferred + "-subscription"@;
    let found = free_number(taken, base, 2);
    lemma_free_number_bound(taken, base, 2);
    if taken.contains(numbered(base, found as nat)) {
        lemma_number_is_free(taken, base);
    }
}

proof fn lemma_number_is_free(taken: Seq<Seq<char>>, base: Seq<char>)
    ensures
        !taken.contains(numbered(base, free_number(taken, base, 2) as nat)),
{
    let found = free_number(taken, base, 2);
    lemma_free_number_bound(taken, base, 2);
    if taken.contains(numbered(base, found as nat)) {
        lemma_stops(taken, base, 2);
        assert(found == taken.len() + 2);
        let tried = Seq::new((taken.len() + 1) as nat, |i: int| numbered(base, (i + 2) as nat));
        assert(tried.no_duplicates()) by {
            assert forall|i: int, j: int|
                0 <= i < tried.len() && 0 <= j < tried.len() && i != j implies tried[i]
                != tried[j] by {
                if tried[i] == tried[j] {
                    lemma_numbered_injective(base, (i + 2) as nat, (j + 2) as nat);
                }
            }
        }
        assert forall|s: Seq<char>| tried.to_set().contains(s) implies taken.to_set().contains(
            s,
        ) by {
            let i = choose|i: int| 0 <= i < tried.len() && tried[i] == s;
            if i + 2 < found {
                lemma_taken_until(taken, base, 2, i + 2);
            }
            assert(taken.contains(s));
        }
        tried.unique_seq_to_set();
        taken.lemma_cardinality_of_set();
        vstd::seq_lib::seq_to_set_is_finite(taken);
        vstd::set_lib::lemma_len_subset(tried.to_set(), taken.to_set());
    }
}

proof fn lemma_stops(taken: Seq<Seq<char>>, base: Seq<char>, n: int)
    requires
        2 <= n <= taken.len() + 2,
        taken.contains(numbered(base, free_number(taken, base, n) as nat)),
    ensures
        free_number(taken, base, n) == taken.len() + 2,
    decreases taken.len() + 2 - n,
{
    if n < taken.len() + 2 && taken.contains(numbered(base, n as nat)) {
        lemma_stops(taken, base, n + 1);
    }
}

/// A name like `preferred` that no provider has.
pub fn unique_provider_name(config: &ProvidersConfig, preferred: &str) -> (r: String)
    ensures
        r@ == unique_name(names(*config), preferred@),
        !names(*config).contains(r@),
{
    let ghost taken = names(*config);
    let count: usize = config.providers.len();
    proof {
        assert(taken.len() == count);
        assert(forall|s: Seq<char>|
            provider_seen(config.providers@, count as int, s) == taken.contains(s)) by {
            assert forall|s: Seq<char>|
                provider_seen(config.providers@, count as int, s) == taken.contains(s) by {
                if provider_seen(config.providers@, count as int, s) {
                    let i = choose|i: int|
                        0 <= i < count && (#[trigger] config.providers@[i]).name@ == s;
                    assert(taken[i] == s);
                }
                if taken.contains(s) {
                    let i = choose|i: int| 0 <= i < taken.len() && taken[i] == s;
                    assert(config.providers@[i].name@ == s);
                }
            }
        }
        unique_names_are_free(taken, preferred@);
    }
    if !name_occurs(&config.providers, count, preferred) {
        return preferred.to_owned();
    }
    let base = text::concat(preferred, "-subscription");
    if !name_occurs(&config.providers, count, base.as_str()) {
        return base;
    }
    let mut n: u128 = 2;
    let limit: u128 = count as u128 + 2;
    while n < limit
        invariant
            2 <= n <= limit,
            limit == count + 2,
            count == config.providers@.len(),
            taken == names(*config),
            taken.len() == count,
            taken.contains(preferred@),
            taken.contains(base@),
            base@ == preferred@ + "-subscription"@,
            !taken.contains(unique_name(taken, preferred@)),
            forall|s: Seq<char>|
                #[trigger] provider_seen(config.providers@, count as int, s) == taken.contains(s),
            free_number(taken, base@, 2) == free_number(taken, base@, n as int),
        decreases limit - n,
    {
        let candidate = text::concat3(base.as_str(), "-", text::decimal_wide(n).as_str());
        if !name_occurs(&config.providers, count, candidate.as_str()) {
            return candidate;
        }
        n += 1;
    }
    text::concat3(base.as_str(), "-", text::decimal_wide(n).as_str())
}

/// The ids and names of the models a Codex subscription offers.
pub open spec fn codex_models() -> Seq<(Seq<char>, Seq<char>)> {
    seq![
        ("gpt-5.6-luna"@, "GPT-5.6 Luna"@),
        ("gpt-5.6-sol"@, "GPT-5.6 Sol"@),
        ("gpt-5.6-terra"@, "GPT-5.6 Terra"@),
    ]
}

/// The efforts of those models.
pub open spec fn codex_efforts() -> Seq<Seq<char>> {
    seq!["none"@, "low"@, "medium"@, "high"@, "xhigh"@, "max"@]
}

pub const CODEX_CONTEXT_WINDOW: u64 = 1_050_000;

/// Whether request options ask for automatic reasoning summaries and nothing
/// else.
pub open spec fn asks_for_summaries(fields: Seq<Field>) -> bool {
    &&& fields.len() == 1
    &&& fields[0].name@ == "reasoning"@
    &&& fields[0].value matches Setting::Table(inner)
    &&& inner@.len() == 1
    &&& inner@[0].name@ == "summary"@
    &&& inner@[0].value matches Setting::Value(v)
    &&& v@ == "\"auto\""@
}

/// Whether `p` is the provider of a Codex subscription under the name `name`.
pub open spec fn is_builtin_codex(p: ProviderConfig, name: Seq<char>) -> bool {
    &&& p.name@ == name
    &&& p.protocol == ProviderProtocol::OpenaiCodex
    &&& p.api_base is None
    &&& p.api_key is None
    &&& p.api_key_env is None
    &&& p.effort_path is None
    &&& p.models@.len() == codex_models().len()
    &&& forall|i: int|
        0 <= i < p.models@.len() ==> {
            &&& (#[trigger] p.models@[i]).id@ == codex_models()[i].0
            &&& p.models@[i].name@ == codex_models()[i].1
            &&& p.models@[i].context_window == CODEX_CONTEXT_WINDOW
            &&& text::texts(p.models@[i].efforts@) == codex_efforts()
            &&& asks_for_summaries(p.models@[i].extra_body@)
        }
}

fn codex_model(id: &str, name: &str) -> (r: ModelConfig)
    ensures
        r.id@ == id@,
        r.name@ == name@,
        r.context_window == CODEX_CONTEXT_WINDOW,
        text::texts(r.efforts@) == codex_efforts(),
        asks_for_summaries(r.extra_body@),
{
    let mut efforts: Vec<String> = Vec::new();
    efforts.push("none".to_owned());
    efforts.push("low".to_owned());
    efforts.push("medium".to_owned());
    efforts.push("high".to_owned());
    efforts.push("xhigh".to_owned());
    efforts.push("max".to_owned());
    proof {
        assert(text::texts(efforts@) =~= codex_efforts());
    }
    let mut reasoning: Vec<Field> = Vec::new();
    reasoning.push(
        Field { name: "summary".to_owned(), value: Setting::Value("\"auto\"".to_owned()) },
    );
    let mut extra_body: Vec<Field> = Vec::new();
    extra_body.push(Field { name: "reasoning".to_owned(), value: Setting::Table(reasoning) });
    ModelConfig {
        id: id.to_owned(),
        name: name.to_owned(),
        context_window: CODEX_CONTEXT_WINDOW,
        efforts,
        extra_body,
    }
}

/// The provider of a Codex subscription.
pub fn builtin_codex_provider(name: &str) -> (r: ProviderConfig)
    ensures
        is_builtin_codex(r, name@),
{
    let mut models: Vec<ModelConfig> = Vec::new();
    models.push(codex_model("gpt-5.6-luna", "GPT-5.6 Luna"));
    models.push(codex_model("gpt-5.6-sol", "GPT-5.6 Sol"));
    models.push(codex_model("gpt-5.6-terra", "GPT-5.6 Terra"));
    ProviderConfig {
        name: name.to_owned(),
        protocol: ProviderProtocol::OpenaiCodex,
        api_base: None,
        api_key: None,
        api_key_env: None,
        effort_path: None,
        models,
    }
}

/// The configuration of a machine that has a Codex login and no provider
/// file.
pub fn codex_only_config() -> (r: ProvidersConfig)
    ensures
        r.default_model@ == "codex/gpt-5.6-terra"@,
        r.providers@.len() == 1,
        is_builtin_codex(r.providers@[0], "codex"@),
{
    let mut providers: Vec<ProviderConfig> = Vec::new();
    providers.push(builtin_codex_provider("codex"));
    ProvidersConfig { default_model: "codex/gpt-5.6-terra".to_owned(), providers }
}

/// Whether a Codex provider is configured.
pub open spec fn has_codex(config: ProvidersConfig) -> bool {
    exists|i: int|
        0 <= i < config.providers@.len() && (#[trigger] config.providers@[i]).protocol
            == ProviderProtocol::OpenaiCodex
}

/// Adds the provider of a Codex subscription unless one is configured.
pub fn add_builtin_codex_provider(config: &mut ProvidersConfig)
    ensures
        final(config).default_model == old(config).default_model,
        has_codex(*final(config)),
        has_codex(*old(config)) ==> *final(config) == *old(config),
        !has_codex(*old(config)) ==> {
            let before = old(config).providers@;
            let after = final(config).providers@;
            &&& after.len() == before.len() + 1
            &&& after.take(before.len() as int) == before
            &&& is_builtin_codex(
                after.last(),
                unique_name(names(*old(config)), "codex"@),
            )
        },
{
    let mut i: usize = 0;
    while i < config.providers.len()
        invariant
            i <= config.providers@.len(),
            *config == *old(config),
            forall|k: int|
                0 <= k < i ==> (#[trigger] config.providers@[k]).protocol
                    != ProviderProtocol::OpenaiCodex,
        decreases config.providers@.len() - i,
    {
        if config.providers[i].protocol == ProviderProtocol::OpenaiCodex {
            return;
        }
        i += 1;
    }
    let name = unique_provider_name(config, "codex");
    config.providers.push(builtin_codex_provider(name.as_str()));
    proof {
        assert(config.providers@.take(old(config).providers@.len() as int)
            =~= old(config).providers@);
        assert(config.providers@[config.providers@.len() - 1].protocol
            == ProviderProtocol::OpenaiCodex);
    }
}

/// A usable configuration with its models.
#[derive(Debug)]
pub struct LoadedConfig {
    pub path: String,
    pub config: ProvidersConfig,
    pub models: Vec<ModelChoice>,
    pub default_index: usize,
}

/// The path of a user's provider file.
pub fn default_path(home: Option<&str>) -> (r: Result<String, ConfigError>)
    ensures
        match home {
            Some(home) => r is Ok && r->Ok_0@ == auth::below(home@, ".lam/providers.toml"@),
            None => r is Err && r->Err_0@ == Fault::HomeUnavailable,
        },
{
    match home {
        Some(home) => Ok(join_path(home, ".lam/providers.toml")),
        None => Err(ConfigError::HomeUnavailable),
    }
}

/// What reading the provider file gave.
#[derive(Debug)]
pub enum ConfigSource {
    Parsed(ProvidersConfig),
    Missing(String),
    Unreadable(String),
    Malformed(String),
}

/// The configuration that a source stands for, before the Codex provider is
/// added, or why there is none. A signed-in Codex stands in for a missing
/// file.
pub open spec fn source_fault(path: Seq<char>, source: ConfigSource, codex: bool) -> Option<Fault> {
    match source {
        ConfigSource::Parsed(_) => None,
        ConfigSource::Missing(why) => if codex {
            None
        } else {
            Some(Fault::Read(path, why@))
        },
        ConfigSource::Unreadable(why) => Some(Fault::Read(path, why@)),
        ConfigSource::Malformed(why) => Some(Fault::Parse(path, why@)),
    }
}

/// Whether `after` is `before` with a Codex provider added where one is
/// offered and none is configured.
pub open spec fn completed(before: ProvidersConfig, after: ProvidersConfig, codex: bool) -> bool {
    if codex && !has_codex(before) {
        &&& after.default_model == before.default_model
        &&& after.providers@.len() == before.providers@.len() + 1
        &&& after.providers@.take(before.providers@.len() as int) == before.providers@
        &&& is_builtin_codex(after.providers@.last(), unique_name(names(before), "codex"@))
    } else {
        after == before
    }
}

/// Whether `config` is the configuration that a source stands for.
pub open spec fn stands_for(source: ConfigSource, codex: bool, config: ProvidersConfig) -> bool {
    match source {
        ConfigSource::Parsed(parsed) => completed(parsed, config, codex),
        ConfigSource::Missing(_) => {
            &&& codex
            &&& config.default_model@ == "codex/gpt-5.6-terra"@
            &&& config.providers@.len() == 1
            &&& is_builtin_codex(config.providers@[0], "codex"@)
        },
        _ => false,
    }
}

impl LoadedConfig {
    /// Completes and checks what was read from `path`. `codex` tells whether
    /// a Codex login is to be offered.
    pub fn from_source(path: String, source: ConfigSource, codex: bool) -> (r: Result<
        Self,
        ConfigError,
    >)
        ensures
            match source_fault(path@, source, codex) {
                Some(fault) => r is Err && r->Err_0@ == fault,
                None => exists|config: ProvidersConfig| #[trigger]
                    stands_for(source, codex, config) && match r {
                        Err(e) => config_fault(config) == Some(e@),
                        Ok(loaded) => {
                            let all = catalog(config.providers@, config.providers@.len() as int);
                            &&& loaded.path == path
                            &&& loaded.config == config
                            &&& config_fault(config) is None
                            &&& choices_of(loaded.models@) == all
                            &&& choice_at(all, 0, config.default_model@) == Some(
                                loaded.default_index as int,
                            )
                            &&& loaded.default_index < loaded.models@.len()
                        },
                    },
            },
    {
        let mut config = match source {
            ConfigSource::Parsed(config) => config,
            ConfigSource::Missing(why) => if codex {
                codex_only_config()
            } else {
                return Err(ConfigError::Read { path, source: why });
            },
            ConfigSource::Unreadable(why) => {
                return Err(ConfigError::Read { path, source: why });
            },
            ConfigSource::Malformed(why) => {
                return Err(ConfigError::Parse { path, source: why });
            },
        };
        let ghost before = config;
        if codex {
            add_builtin_codex_provider(&mut config);
        }
        proof {
            if source is Missing {
                assert(before.providers@[0].protocol == ProviderProtocol::OpenaiCodex);
                assert(has_codex(before));
            }
            assert(stands_for(source, codex, config));
        }
        match validate(&config) {
            Err(e) => Err(e),
            Ok((models, default_index)) => Ok(LoadedConfig { path, config, models, default_index }),
        }
    }
}

proof fn lemma_no_provider_fault(providers: Seq<ProviderConfig>, i: int, k: int)
    requires
        0 <= i <= k < providers.len(),
        providers_fault(providers, i) is None,
    ensures
        provider_fault(providers, k) is None,
        models_fault(providers[k], 0) is None,
    decreases k - i,
{
    if i < k {
        lemma_no_provider_fault(providers, i + 1, k);
    }
}

proof fn lemma_no_model_fault(p: ProviderConfig, j: int, k: int)
    requires
        0 <= j <= k < p.models@.len(),
        models_fault(p, j) is None,
    ensures
        model_fault(p, k) is None,
    decreases k - j,
{
    if j < k {
        lemma_no_model_fault(p, j + 1, k);
    }
}

/// Where choice `x` of the first `n` providers comes from.
proof fn lemma_catalog_origin(providers: Seq<ProviderConfig>, n: int, x: int) -> (r: (int, int))
    requires
        0 <= n <= providers.len(),
        0 <= x < catalog(providers, n).len(),
    ensures
        0 <= r.0 < n,
        0 <= r.1 < providers[r.0].models@.len(),
        catalog(providers, n)[x] == model_choice(providers[r.0], r.1),
        x == catalog(providers, r.0).len() + r.1,
    decreases n,
{
    let before = catalog(providers, n - 1);
    if x < before.len() {
        lemma_catalog_origin(providers, n - 1, x)
    } else {
        (n - 1, x - before.len())
    }
}

proof fn lemma_split_id(a: Seq<char>, b: Seq<char>, c: Seq<char>, d: Seq<char>)
    requires
        !a.contains('/'),
        !c.contains('/'),
        a + "/"@ + b == c + "/"@ + d,
    ensures
        a == c,
        b == d,
{
    reveal_strlit("/");
    let left = a + "/"@ + b;
    let right = c + "/"@ + d;
    assert(left[a.len() as int] == '/');
    assert(right[c.len() as int] == '/');
    if a.len() < c.len() {
        assert(right[a.len() as int] == c[a.len() as int]);
        assert(c.contains('/'));
    }
    if c.len() < a.len() {
        assert(left[c.len() as int] == a[c.len() as int]);
        assert(a.contains('/'));
    }
    assert(a =~= left.take(a.len() as int));
    assert(c =~= right.take(c.len() as int));
    assert(b =~= left.skip(a.len() + 1int));
    assert(d =~= right.skip(c.len() + 1int));
}

/// No two models of a valid configuration have the same registry id.
pub proof fn registry_ids_are_unique(config: ProvidersConfig, x: int, y: int)
    requires
        config_fault(config) is None,
        0 <= x < catalog(config.providers@, config.providers@.len() as int).len(),
        0 <= y < catalog(config.providers@, config.providers@.len() as int).len(),
        x != y,
    ensures
        ({
            let all = catalog(config.providers@, config.providers@.len() as int);
            all[x].registry_id != all[y].registry_id
        }),
{
    let providers = config.providers@;
    let n = providers.len() as int;
    let all = catalog(providers, n);
    let (i, j) = lemma_catalog_origin(providers, n, x);
    let (k, l) = lemma_catalog_origin(providers, n, y);
    lemma_no_provider_fault(providers, 0, i);
    lemma_no_provider_fault(providers, 0, k);
    lemma_no_model_fault(providers[i], 0, j);
    lemma_no_model_fault(providers[k], 0, l);
    if all[x].registry_id == all[y].registry_id {
        lemma_split_id(
            providers[i].name@,
            providers[i].models@[j].id@,
            providers[k].name@,
            providers[k].models@[l].id@,
        );
        if i < k {
            assert(provider_seen(providers, k, providers[k].name@));
        } else if k < i {
            assert(provider_seen(providers, i, providers[i].name@));
        } else if j < l {
            assert(model_seen(providers[k].models@, l, providers[k].models@[l].id@));
        } else {
            assert(model_seen(providers[i].models@, j, providers[i].models@[j].id@));
        }
    }
}

proof fn lemma_no_effort_fault(provider: Seq<char>, m: ModelConfig, i: int, k: int)
    requires
        0 <= i <= k < m.efforts@.len(),
        effort_fault(provider, m, i) is None,
    ensures
        !padded(m.efforts@[k]@),
        !seen(m.efforts@, k, m.efforts@[k]@),
    decreases k - i,
{
    if i < k {
        lemma_no_effort_fault(provider, m, i + 1, k);
    }
}

/// Every model of a valid configuration has a context window and an effort,
/// and offers no effort twice.
pub proof fn valid_models_are_usable(config: ProvidersConfig, x: int)
    requires
        config_fault(config) is None,
        0 <= x < catalog(config.providers@, config.providers@.len() as int).len(),
    ensures
        ({
            let model = catalog(config.providers@, config.providers@.len() as int)[x];
            &&& model.context_window > 0
            &&& model.efforts.len() > 0
            &&& forall|a: int, b: int|
                0 <= a < b < model.efforts.len() ==> #[trigger] model.efforts[a]
                    != #[trigger] model.efforts[b]
        }),
{
    let providers = config.providers@;
    let n = providers.len() as int;
    let (i, j) = lemma_catalog_origin(providers, n, x);
    lemma_no_provider_fault(providers, 0, i);
    lemma_no_model_fault(providers[i], 0, j);
    let m = providers[i].models@[j];
    let model = catalog(providers, n)[x];
    assert forall|a: int, b: int|
        0 <= a < b < model.efforts.len() implies #[trigger] model.efforts[a]
        != #[trigger] model.efforts[b] by {
        lemma_no_effort_fault(providers[i].name@, m, 0, b);
        assert(model.efforts[a] == m.efforts@[a]@);
        assert(model.efforts[b] == m.efforts@[b]@);
    }
}

} // verus!
