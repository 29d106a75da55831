//! Configuration of the optional search providers.

use crate::auth;
use crate::auth::join_path;
use crate::history::copy_opt;
use crate::text;
use vstd::prelude::*;
use vstd::string::*;

verus! {

/// Functions of the Exa provider.
#[derive(Clone, Copy, Debug, PartialEq, Eq, Structural)]
pub struct ExaFunctions {
    pub search: bool,
    pub contents: bool,
    pub context: bool,
    pub answer: bool,
    pub find_similar: bool,
}

/// Functions of the Parallel provider.
#[derive(Clone, Copy, Debug, PartialEq, Eq, Structural)]
pub struct ParallelFunctions {
    pub search: bool,
    pub extract: bool,
}

/// One provider's section of the configuration file.
#[derive(Clone, Debug, PartialEq, Eq)]
pub struct ProviderSection {
    /// A provider that is switched off is not installed, key or not.
    pub enabled: bool,
    pub api_key: Option<String>,
    pub api_key_env: Option<String>,
    /// The functions to install; the provider's own choice when left out.
    pub functions: Option<Vec<String>>,
    pub base_url: Option<String>,
}

/// The configuration file.
#[derive(Clone, Debug)]
pub struct FileConfig {
    pub exa: Option<ProviderSection>,
    pub parallel: Option<ProviderSection>,
}

/// Why there is no agent configuration. Causes are texts.
#[derive(Debug, PartialEq, Eq)]
pub enum AgentConfigError {
    HomeUnavailable,
    Read { path: String, source: String },
    Parse { path: String, source: String },
    Invalid { message: String },
}

/// The text of an error.
pub open spec fn error_text(e: AgentConfigError) -> Seq<char> {
    match e {
        AgentConfigError::HomeUnavailable => {
            "could not determine the home directory for ~/.lam/config.toml"@
        },
        AgentConfigError::Read { path, source } => "could not read agent configuration at `"@
            + path@ + "`: "@ + source@,
        AgentConfigError::Parse { path, source } => "could not parse agent configuration at `"@
            + path@ + "`: "@ + source@,
        AgentConfigError::Invalid { message } => "invalid agent configuration: "@ + message@,
    }
}

impl AgentConfigError {
    /// The text of the error.
    pub fn message(&self) -> (r: String)
        ensures
            r@ == error_text(*self),
    {
        match self {
            AgentConfigError::HomeUnavailable => {
                "could not determine the home directory for ~/.lam/config.toml".to_owned()
            },
            AgentConfigError::Read { path, source } => {
                let mut r = text::concat3(
                    "could not read agent configuration at `",
                    path.as_str(),
                    "`: ",
                );
                r.append(source.as_str());
                r
            },
            AgentConfigError::Parse { path, source } => {
                let mut r = text::concat3(
                    "could not parse agent configuration at `",
                    path.as_str(),
                    "`: ",
                );
                r.append(source.as_str());
                r
            },
            AgentConfigError::Invalid { message } => {
                text::concat("invalid agent configuration: ", message.as_str())
            },
        }
    }
}

/// Where the agent configuration is kept.
pub fn default_path(home: Option<&str>) -> (r: Result<String, AgentConfigError>)
    ensures
        match home {
            Some(home) => r is Ok && r->Ok_0@ == auth::below(home@, ".lam/config.toml"@),
            None => r is Err && r->Err_0 is HomeUnavailable,
        },
{
    match home {
        Some(home) => Ok(join_path(home, ".lam/config.toml")),
        None => Err(AgentConfigError::HomeUnavailable),
    }
}

/// What reading the configuration file came to.
pub enum AgentSource {
    Parsed(FileConfig),
    Missing,
    Unreadable(String),
    Malformed(String),
}

/// The section that stands for `s`: a section that is not mentioned still
/// looks for its key in `variable`.
pub open spec fn stands_for(
    r: ProviderSection,
    s: Option<ProviderSection>,
    variable: Seq<char>,
) -> bool {
    match s {
        Some(section) => r == section,
        None => is_default(r, variable),
    }
}

/// The two sections of a configuration file. A missing file is no error.
pub fn sections(path: &str, source: AgentSource) -> (r: Result<
    (ProviderSection, ProviderSection),
    AgentConfigError,
>)
    ensures
        match source {
            AgentSource::Parsed(file) => r is Ok && stands_for(
                r->Ok_0.0,
                file.exa,
                "EXA_API_KEY"@,
            ) && stands_for(r->Ok_0.1, file.parallel, "PARALLEL_API_KEY"@),
            AgentSource::Missing => r is Ok && is_default(r->Ok_0.0, "EXA_API_KEY"@) && is_default(
                r->Ok_0.1,
                "PARALLEL_API_KEY"@,
            ),
            AgentSource::Unreadable(e) => r is Err && (r->Err_0 matches AgentConfigError::Read {
                path: p,
                source: s,
            } && p@ == path@ && s == e),
            AgentSource::Malformed(e) => r is Err && (r->Err_0 matches AgentConfigError::Parse {
                path: p,
                source: s,
            } && p@ == path@ && s == e),
        },
{
    match source {
        AgentSource::Parsed(file) => {
            let exa = match file.exa {
                Some(section) => section,
                None => default_exa_section(),
            };
            let parallel = match file.parallel {
                Some(section) => section,
                None => default_parallel_section(),
            };
            Ok((exa, parallel))
        },
        AgentSource::Missing => Ok((default_exa_section(), default_parallel_section())),
        AgentSource::Unreadable(source) => Err(
            AgentConfigError::Read { path: path.to_owned(), source },
        ),
        AgentSource::Malformed(source) => Err(
            AgentConfigError::Parse { path: path.to_owned(), source },
        ),
    }
}

/// Whether a section that does not say so is switched on.
pub fn default_true() -> (r: bool)
    ensures
        r,
{
    true
}

/// Whether `s` is the section of a provider that is not mentioned: switched
/// on, with its key in `variable`.
pub open spec fn is_default(s: ProviderSection, variable: Seq<char>) -> bool {
    &&& s.enabled
    &&& s.api_key is None
    &&& text::opt_text(s.api_key_env) == Some(variable)
    &&& s.functions is None
    &&& s.base_url is None
}

fn default_section(variable: &str) -> (r: ProviderSection)
    ensures
        is_default(r, variable@),
{
    ProviderSection {
        enabled: true,
        api_key: None,
        api_key_env: Some(variable.to_owned()),
        functions: None,
        base_url: None,
    }
}

pub fn default_exa_section() -> (r: ProviderSection)
    ensures
        is_default(r, "EXA_API_KEY"@),
{
    default_section("EXA_API_KEY")
}

pub fn default_parallel_section() -> (r: ProviderSection)
    ensures
        is_default(r, "PARALLEL_API_KEY"@),
{
    default_section("PARALLEL_API_KEY")
}

/// What an outcome with a text for its error is.
pub open spec fn told<T>(r: Result<T, String>) -> Result<T, Seq<char>> {
    match r {
        Ok(v) => Ok(v),
        Err(e) => Err(e@),
    }
}

/// The key of a section, or what is wrong with it. `environment` is the value
/// of the variable that is asked for.
pub open spec fn section_key(
    name: Seq<char>,
    s: ProviderSection,
    environment: Option<&str>,
) -> Result<Option<Seq<char>>, Seq<char>> {
    let from_environment = match environment {
        Some(value) => if text::is_blank(value@) {
            None
        } else {
            Some(value@)
        },
        None => None,
    };
    match (s.api_key, s.api_key_env) {
        (Some(_), Some(_)) => Err(
            "["@ + name + "] must set only one of api_key or api_key_env"@,
        ),
        (Some(key), None) => if text::is_blank(key@) {
            Err("["@ + name + "] has an empty api_key"@)
        } else {
            Ok(Some(key@))
        },
        (None, Some(variable)) => if text::is_blank(variable@) {
            Err("["@ + name + "] has an empty api_key_env"@)
        } else {
            Ok(from_environment)
        },
        (None, None) => Ok(from_environment),
    }
}

/// The variable that may hold a section's key.
pub fn key_variable(section: &ProviderSection, default: &str) -> (r: String)
    ensures
        r@ == (match section.api_key_env {
            Some(variable) => variable@,
            None => default@,
        }),
{
    match &section.api_key_env {
        Some(variable) => variable.clone(),
        None => default.to_owned(),
    }
}

fn filled(environment: Option<&str>) -> (r: Option<String>)
    ensures
        text::opt_text(r) == (match environment {
            Some(value) => if text::is_blank(value@) {
                None
            } else {
                Some(value@)
            },
            None => None,
        }),
{
    match environment {
        Some(value) => if text::blank(value) {
            None
        } else {
            Some(value.to_owned())
        },
        None => None,
    }
}

/// The key of a section.
pub fn resolve_api_key(name: &str, section: &ProviderSection, environment: Option<&str>) -> (r:
    Result<Option<String>, String>)
    ensures
        (match r {
            Ok(key) => Ok(text::opt_text(key)),
            Err(e) => Err(e@),
        }) == section_key(name@, *section, environment),
{
    match (&section.api_key, &section.api_key_env) {
        (Some(_), Some(_)) => Err(
            text::concat3("[", name, "] must set only one of api_key or api_key_env"),
        ),
        (Some(key), None) => if text::blank(key.as_str()) {
            Err(text::concat3("[", name, "] has an empty api_key"))
        } else {
            Ok(Some(key.clone()))
        },
        (None, Some(variable)) => if text::blank(variable.as_str()) {
            Err(text::concat3("[", name, "] has an empty api_key_env"))
        } else {
            Ok(filled(environment))
        },
        (None, None) => Ok(filled(environment)),
    }
}

/// The functions with one more switched on, if there is one of that name.
pub open spec fn with_exa(f: ExaFunctions, name: Seq<char>) -> Option<ExaFunctions> {
    if name == "search"@ {
        Some(ExaFunctions { search: true, ..f })
    } else if name == "contents"@ {
        Some(ExaFunctions { contents: true, ..f })
    } else if name == "context"@ {
        Some(ExaFunctions { context: true, ..f })
    } else if name == "answer"@ {
        Some(ExaFunctions { answer: true, ..f })
    } else if name == "findSimilar"@ {
        Some(ExaFunctions { find_similar: true, ..f })
    } else {
        None
    }
}

/// No function of the Exa provider.
pub open spec fn no_exa() -> ExaFunctions {
    ExaFunctions {
        search: false,
        contents: false,
        context: false,
        answer: false,
        find_similar: false,
    }
}

/// The functions that the names from `i` on add to `f`. An unknown name is an
/// error.
pub open spec fn exa_from(names: Seq<String>, i: int, f: ExaFunctions) -> Result<
    ExaFunctions,
    Seq<char>,
>
    decreases names.len() - i,
{
    if i < 0 || i >= names.len() {
        Ok(f)
    } else {
        match with_exa(f, names[i]@) {
            Some(next) => exa_from(names, i + 1, next),
            None => Err(
                "unknown exa function `"@ + names[i]@
                    + "`; expected one of search, contents, context, answer, findSimilar"@,
            ),
        }
    }
}

/// The Exa functions of a list of names.
pub fn parse_exa_functions(names: &Vec<String>) -> (r: Result<ExaFunctions, String>)
    ensures
        told(r) == exa_from(names@, 0, no_exa()),
{
    let mut f = ExaFunctions {
        search: false,
        contents: false,
        context: false,
        answer: false,
        find_similar: false,
    };
    let mut i: usize = 0;
    while i < names.len()
        invariant
            i <= names@.len(),
            exa_from(names@, 0, no_exa()) == exa_from(names@, i as int, f),
        decreases names@.len() - i,
    {
        let name = names[i].as_str();
        if text::same(name, "search") {
            f.search = true;
        } else if text::same(name, "contents") {
            f.contents = true;
        } else if text::same(name, "context") {
            f.context = true;
        } else if text::same(name, "answer") {
            f.answer = true;
        } else if text::same(name, "findSimilar") {
            f.find_similar = true;
        } else {
            return Err(
                text::concat3(
                    "unknown exa function `",
                    name,
                    "`; expected one of search, contents, context, answer, findSimilar",
                ),
            );
        }
        i += 1;
    }
    Ok(f)
}

/// The functions that the names from `i` on add to `f`. An unknown name is an
/// error.
pub open spec fn parallel_from(names: Seq<String>, i: int, f: ParallelFunctions) -> Result<
    ParallelFunctions,
    Seq<char>,
>
    decreases names.len() - i,
{
    if i < 0 || i >= names.len() {
        Ok(f)
    } else if names[i]@ == "search"@ {
        parallel_from(names, i + 1, ParallelFunctions { search: true, ..f })
    } else if names[i]@ == "extract"@ {
        parallel_from(names, i + 1, ParallelFunctions { extract: true, ..f })
    } else {
        Err(
            "unknown parallel function `"@ + names[i]@ + "`; expected one of search, extract"@,
        )
    }
}

/// The Parallel functions of a list of names.
pub fn parse_parallel_functions(names: &Vec<String>) -> (r: Result<ParallelFunctions, String>)
    ensures
        told(r) == parallel_from(
            names@,
            0,
            ParallelFunctions { search: false, extract: false },
        ),
{
    let mut f = ParallelFunctions { search: false, extract: false };
    let mut i: usize = 0;
    let ghost none = f;
    while i < names.len()
        invariant
            i <= names@.len(),
            none == (ParallelFunctions { search: false, extract: false }),
            parallel_from(names@, 0, none) == parallel_from(names@, i as int, f),
        decreases names@.len() - i,
    {
        let name = names[i].as_str();
        if text::same(name, "search") {
            f.search = true;
        } else if text::same(name, "extract") {
            f.extract = true;
        } else {
            return Err(
                text::concat3(
                    "unknown parallel function `",
                    name,
                    "`; expected one of search, extract",
                ),
            );
        }
        i += 1;
    }
    Ok(f)
}

/// The Exa provider as it is installed. Without `functions` it installs its
/// own choice.
#[derive(Clone, Debug, PartialEq, Eq)]
pub struct ResolvedExa {
    pub api_key: String,
    pub functions: Option<ExaFunctions>,
    pub base_url: Option<String>,
}

/// The Parallel provider as it is installed.
#[derive(Clone, Debug, PartialEq, Eq)]
pub struct ResolvedParallel {
    pub api_key: String,
    pub functions: Option<ParallelFunctions>,
    pub base_url: Option<String>,
}

/// What the functions of a section come to for the Exa provider.
pub open spec fn exa_functions(s: ProviderSection) -> Result<Option<ExaFunctions>, Seq<char>> {
    match s.functions {
        None => Ok(None),
        Some(names) => match exa_from(names@, 0, no_exa()) {
            Ok(f) => Ok(Some(f)),
            Err(e) => Err(e),
        },
    }
}

/// What the functions of a section come to for the Parallel provider.
pub open spec fn parallel_functions(s: ProviderSection) -> Result<
    Option<ParallelFunctions>,
    Seq<char>,
> {
    match s.functions {
        None => Ok(None),
        Some(names) => match parallel_from(
            names@,
            0,
            ParallelFunctions { search: false, extract: false },
        ) {
            Ok(f) => Ok(Some(f)),
            Err(e) => Err(e),
        },
    }
}

/// Why a provider is not installed: it is switched off, it has no key, or its
/// section is wrong.
pub enum Skip {
    Off,
    NoKey,
    Wrong(Seq<char>),
}

/// Whether a section is skipped, and why; otherwise its key.
pub open spec fn installs<T>(
    s: ProviderSection,
    key: Result<Option<Seq<char>>, Seq<char>>,
    functions: Result<T, Seq<char>>,
) -> Result<Seq<char>, Skip> {
    if !s.enabled {
        Err(Skip::Off)
    } else {
        match key {
            Err(e) => Err(Skip::Wrong(e)),
            Ok(None) => Err(Skip::NoKey),
            Ok(Some(k)) => match functions {
                Err(e) => Err(Skip::Wrong(e)),
                Ok(_) => Ok(k),
            },
        }
    }
}

/// The warning about a provider that is skipped, if one is due.
pub open spec fn skip_warning(skip: Skip, what: Seq<char>, hint: Seq<char>) -> Option<Seq<char>> {
    match skip {
        Skip::Off => None,
        Skip::NoKey => Some(what + " search not configured "@ + hint),
        Skip::Wrong(e) => Some(what + " search skipped: invalid agent configuration: "@ + e),
    }
}

/// The outcome of one provider.
pub enum Install<T> {
    Ready(T),
    Off,
    NoKey,
    Wrong(String),
}

fn resolve_exa(s: &ProviderSection, environment: Option<&str>) -> (r: Install<ResolvedExa>)
    ensures
        match installs(*s, section_key("exa"@, *s, environment), exa_functions(*s)) {
            Ok(key) => r matches Install::Ready(p) && p.api_key@ == key && exa_functions(*s) == Ok::<
                Option<ExaFunctions>,
                Seq<char>,
            >(p.functions) && text::opt_text(p.base_url) == text::opt_text(s.base_url),
            Err(Skip::Off) => r is Off,
            Err(Skip::NoKey) => r is NoKey,
            Err(Skip::Wrong(e)) => r matches Install::Wrong(m) && m@ == e,
        },
{
    if !s.enabled {
        return Install::Off;
    }
    let api_key = match resolve_api_key("exa", s, environment) {
        Err(e) => {
            return Install::Wrong(e);
        },
        Ok(None) => {
            return Install::NoKey;
        },
        Ok(Some(key)) => key,
    };
    let functions = match &s.functions {
        None => None,
        Some(names) => match parse_exa_functions(names) {
            Err(e) => {
                return Install::Wrong(e);
            },
            Ok(f) => Some(f),
        },
    };
    Install::Ready(ResolvedExa { api_key, functions, base_url: copy_opt(&s.base_url) })
}

fn resolve_parallel(s: &ProviderSection, environment: Option<&str>) -> (r: Install<
    ResolvedParallel,
>)
    ensures
        match installs(
            *s,
            section_key("parallel"@, *s, environment),
            parallel_functions(*s),
        ) {
            Ok(key) => r matches Install::Ready(p) && p.api_key@ == key && parallel_functions(*s)
                == Ok::<Option<ParallelFunctions>, Seq<char>>(p.functions) && text::opt_text(
                p.base_url,
            ) == text::opt_text(s.base_url),
            Err(Skip::Off) => r is Off,
            Err(Skip::NoKey) => r is NoKey,
            Err(Skip::Wrong(e)) => r matches Install::Wrong(m) && m@ == e,
        },
{
    if !s.enabled {
        return Install::Off;
    }
    let api_key = match resolve_api_key("parallel", s, environment) {
        Err(e) => {
            return Install::Wrong(e);
        },
        Ok(None) => {
            return Install::NoKey;
        },
        Ok(Some(key)) => key,
    };
    let functions = match &s.functions {
        None => None,
        Some(names) => match parse_parallel_functions(names) {
            Err(e) => {
                return Install::Wrong(e);
            },
            Ok(f) => Some(f),
        },
    };
    Install::Ready(ResolvedParallel { api_key, functions, base_url: copy_opt(&s.base_url) })
}

/// The search providers that are installed.
#[derive(Clone, Debug)]
pub struct AgentConfig {
    pub path: Option<String>,
    pub exa: Option<ResolvedExa>,
    pub parallel: Option<ResolvedParallel>,
}

/// The warnings that two providers leave, in order.
pub open spec fn warnings_of(exa: Option<Seq<char>>, parallel: Option<Seq<char>>) -> Seq<
    Seq<char>,
> {
    let first = match exa {
        Some(w) => seq![w],
        None => Seq::empty(),
    };
    match parallel {
        Some(w) => first.push(w),
        None => first,
    }
}

/// The warning about the Exa provider.
pub open spec fn exa_warning(s: ProviderSection, environment: Option<&str>) -> Option<Seq<char>> {
    match installs(s, section_key("exa"@, s, environment), exa_functions(s)) {
        Ok(_) => None,
        Err(skip) => skip_warning(skip, "Exa"@, "(set [exa] api_key_env / EXA_API_KEY)."@),
    }
}

/// The warning about the Parallel provider.
pub open spec fn parallel_warning(s: ProviderSection, environment: Option<&str>) -> Option<
    Seq<char>,
> {
    match installs(s, section_key("parallel"@, s, environment), parallel_functions(s)) {
        Ok(_) => None,
        Err(skip) => skip_warning(
            skip,
            "Parallel"@,
            "(set [parallel] api_key_env / PARALLEL_API_KEY)."@,
        ),
    }
}

fn no_key(what: &str, hint: &str) -> (r: String)
    ensures
        r@ == what@ + " search not configured "@ + hint@,
{
    text::concat3(what, " search not configured ", hint)
}

fn wrong(what: &str, e: &str) -> (r: String)
    ensures
        r@ == what@ + " search skipped: invalid agent configuration: "@ + e@,
{
    text::concat3(what, " search skipped: invalid agent configuration: ", e)
}

impl AgentConfig {
    /// Resolves the two sections. A provider that cannot be installed is left
    /// out with a warning; one that is switched off without.
    pub fn load(
        path: String,
        exa: &ProviderSection,
        exa_environment: Option<&str>,
        parallel: &ProviderSection,
        parallel_environment: Option<&str>,
    ) -> (r: (Self, Vec<String>))
        ensures
            r.0.path == Some(path),
            text::texts(r.1@) == warnings_of(
                exa_warning(*exa, exa_environment),
                parallel_warning(*parallel, parallel_environment),
            ),
            match installs(*exa, section_key("exa"@, *exa, exa_environment), exa_functions(*exa)) {
                Ok(key) => r.0.exa matches Some(p) && p.api_key@ == key && exa_functions(*exa)
                    == Ok::<Option<ExaFunctions>, Seq<char>>(p.functions) && text::opt_text(
                    p.base_url,
                ) == text::opt_text(exa.base_url),
                Err(_) => r.0.exa is None,
            },
            match installs(
                *parallel,
                section_key("parallel"@, *parallel, parallel_environment),
                parallel_functions(*parallel),
            ) {
                Ok(key) => r.0.parallel matches Some(p) && p.api_key@ == key && parallel_functions(
                    *parallel,
                ) == Ok::<Option<ParallelFunctions>, Seq<char>>(p.functions) && text::opt_text(
                    p.base_url,
                ) == text::opt_text(parallel.base_url),
                Err(_) => r.0.parallel is None,
            },
    {
        let mut warnings: Vec<String> = Vec::new();
        let exa_ready = match resolve_exa(exa, exa_environment) {
            Install::Ready(p) => Some(p),
            Install::Off => None,
            Install::NoKey => {
                warnings.push(no_key("Exa", "(set [exa] api_key_env / EXA_API_KEY)."));
                None
            },
            Install::Wrong(e) => {
                warnings.push(wrong("Exa", e.as_str()));
                None
            },
        };
        let ghost first = warnings@;
        proof {
            assert(text::texts(first) =~= warnings_of(exa_warning(*exa, exa_environment), None));
        }
        let parallel_ready = match resolve_parallel(parallel, parallel_environment) {
            Install::Ready(p) => Some(p),
            Install::Off => None,
            Install::NoKey => {
                warnings.push(
                    no_key("Parallel", "(set [parallel] api_key_env / PARALLEL_API_KEY)."),
                );
                None
            },
            Install::Wrong(e) => {
                warnings.push(wrong("Parallel", e.as_str()));
                None
            },
        };
        proof {
            assert(text::texts(warnings@) =~= warnings_of(
                exa_warning(*exa, exa_environment),
                parallel_warning(*parallel, parallel_environment),
            ));
        }
        (AgentConfig { path: Some(path), exa: exa_ready, parallel: parallel_ready }, warnings)
    }

    /// Whether a search provider is installed.
    pub fn has_search(&self) -> (r: bool)
        ensures
            r == (self.exa is Some || self.parallel is Some),
    {
        self.exa.is_some() || self.parallel.is_some()
    }
}

} // verus!
