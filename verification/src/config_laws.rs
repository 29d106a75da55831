//! Which provider configurations are accepted, and which models they offer.

use crate::config;
use crate::config::{
    Choice, ConfigSource, Fault, Field, ModelConfig, ProviderConfig, ProviderProtocol,
    ProvidersConfig, Setting, Slot,
};
use crate::text;
use crate::text_laws;
use vstd::prelude::*;

verus! {

/// Whether a text is some word without whitespace around it.
pub open spec fn is_neat(s: Seq<char>) -> bool {
    s.len() > 0 && !text::is_space(s[0]) && !text::is_space(s.last())
}

proof fn lemma_neat(s: Seq<char>)
    ensures
        config::padded(s) == !is_neat(s),
{
    let (i, j) = text_laws::trimming_removes_outer_whitespace(s);
    if is_neat(s) {
        text_laws::trimmed_texts_stay(s);
    } else if text::trim(s) == s && s.len() > 0 {
        assert(j - i == s.len());
        assert(i == 0 && j == s.len());
    }
}

/// Whether a text holds something other than whitespace.
pub open spec fn has_content(s: Seq<char>) -> bool {
    exists|k: int| 0 <= k < s.len() && !text::is_space(#[trigger] s[k])
}

proof fn lemma_content(s: Seq<char>)
    ensures
        text::is_blank(s) == !has_content(s),
{
    let (i, j) = text_laws::trimming_removes_outer_whitespace(s);
    if i < j {
        assert(!text::is_space(s[i]));
    }
}

/// Whether the efforts of a model are words, each given once, and at least one.
pub open spec fn has_good_efforts(m: ModelConfig) -> bool {
    &&& m.efforts@.len() > 0
    &&& forall|i: int| 0 <= i < m.efforts@.len() ==> is_neat((#[trigger] m.efforts@[i])@)
    &&& forall|i: int, j: int|
        0 <= i < j < m.efforts@.len() ==> (#[trigger] m.efforts@[i])@ != (
        #[trigger] m.efforts@[j])@
}

proof fn lemma_efforts(provider: Seq<char>, m: ModelConfig, i: int)
    requires
        0 <= i <= m.efforts@.len(),
    ensures
        config::effort_fault(provider, m, i) is None <==> (forall|k: int|
            i <= k < m.efforts@.len() ==> is_neat((#[trigger] m.efforts@[k])@) && !config::seen(
                m.efforts@,
                k,
                m.efforts@[k]@,
            )),
    decreases m.efforts@.len() - i,
{
    if i < m.efforts@.len() {
        lemma_neat(m.efforts@[i]@);
        lemma_efforts(provider, m, i + 1);
    }
}

proof fn lemma_good_efforts(provider: Seq<char>, m: ModelConfig)
    ensures
        config::efforts_fault(provider, m) is None <==> has_good_efforts(m),
{
    lemma_efforts(provider, m, 0);
    if m.efforts@.len() > 0 && config::effort_fault(provider, m, 0) is None {
        assert forall|i: int, j: int| 0 <= i < j < m.efforts@.len() implies (
        #[trigger] m.efforts@[i])@ != (#[trigger] m.efforts@[j])@ by {
            assert(!config::seen(m.efforts@, j, m.efforts@[j]@));
        }
    }
    if has_good_efforts(m) {
        assert forall|k: int| 0 <= k < m.efforts@.len() implies is_neat(
            (#[trigger] m.efforts@[k])@,
        ) && !config::seen(m.efforts@, k, m.efforts@[k]@) by {}
    }
}

/// Whether model `j` of a provider can be used: it has an id and a name, room
/// for context, efforts, a free place for them in its request options, and an
/// id that no earlier model of the provider has.
pub open spec fn is_good_model(p: ProviderConfig, j: int) -> bool {
    let m = p.models@[j];
    &&& is_neat(m.id@)
    &&& has_content(m.name@)
    &&& m.context_window > 0
    &&& has_good_efforts(m)
    &&& config::slot_at(m.extra_body@, config::effort_segments(p), 0) == Slot::Free
    &&& forall|k: int| 0 <= k < j ==> (#[trigger] p.models@[k]).id@ != m.id@
}

proof fn lemma_good_model(p: ProviderConfig, j: int)
    requires
        0 <= j < p.models@.len(),
    ensures
        config::model_fault(p, j) is None <==> is_good_model(p, j),
{
    let m = p.models@[j];
    lemma_neat(m.id@);
    lemma_content(m.name@);
    lemma_good_efforts(p.name@, m);
}

proof fn lemma_good_models(p: ProviderConfig, j: int)
    requires
        0 <= j <= p.models@.len(),
    ensures
        config::models_fault(p, j) is None <==> (forall|k: int|
            j <= k < p.models@.len() ==> #[trigger] is_good_model(p, k)),
    decreases p.models@.len() - j,
{
    if j < p.models@.len() {
        lemma_good_model(p, j);
        lemma_good_models(p, j + 1);
    }
}

/// Whether a provider's credentials are clear: at most one of a key and the
/// name of its variable, neither blank; and none, nor another endpoint, for a
/// subscription through Codex.
pub open spec fn has_clear_credentials(p: ProviderConfig) -> bool {
    match p.protocol {
        ProviderProtocol::OpenaiCodex => p.api_key is None && p.api_key_env is None && p.api_base
            is None,
        ProviderProtocol::XaiSupergrok => true,
        _ => {
            &&& p.api_key is None || p.api_key_env is None
            &&& p.api_key matches Some(key) ==> has_content(key@)
            &&& p.api_key_env matches Some(variable) ==> has_content(variable@)
        },
    }
}

proof fn lemma_credentials(p: ProviderConfig)
    ensures
        config::credentials_fault(p) is None <==> has_clear_credentials(p),
{
    if let Some(key) = p.api_key {
        lemma_content(key@);
    }
    if let Some(variable) = p.api_key_env {
        lemma_content(variable@);
    }
}

/// Whether provider `i` can be used, its models aside: it has a name that is
/// its own and holds no slash, a model, clear credentials, and a path for the
/// effort without empty segments.
pub open spec fn is_good_provider(providers: Seq<ProviderConfig>, i: int) -> bool {
    let p = providers[i];
    let segments = config::effort_segments(p);
    &&& has_content(p.name@)
    &&& !p.name@.contains('/')
    &&& forall|k: int| 0 <= k < i ==> (#[trigger] providers[k]).name@ != p.name@
    &&& p.models@.len() > 0
    &&& has_clear_credentials(p)
    &&& forall|k: int| 0 <= k < segments.len() ==> is_neat(#[trigger] segments[k])
}

proof fn lemma_good_provider(providers: Seq<ProviderConfig>, i: int)
    requires
        0 <= i < providers.len(),
    ensures
        config::provider_fault(providers, i) is None <==> is_good_provider(providers, i),
{
    let p = providers[i];
    let segments = config::effort_segments(p);
    lemma_content(p.name@);
    lemma_credentials(p);
    assert forall|k: int| 0 <= k < segments.len() implies config::padded(segments[k])
        == !is_neat(#[trigger] segments[k]) by {
        lemma_neat(segments[k]);
    }
    if config::effort_path_fault(p) is Some {
        let k = choose|k: int| 0 <= k < segments.len() && config::padded(#[trigger] segments[k]);
        assert(!is_neat(segments[k]));
    } else {
        assert forall|k: int| 0 <= k < segments.len() implies is_neat(#[trigger] segments[k]) by {
            assert(!config::padded(segments[k]));
        }
    }
}

/// Whether the providers from `i` on can be used, and all their models.
pub open spec fn are_good(providers: Seq<ProviderConfig>, i: int) -> bool {
    &&& forall|k: int| i <= k < providers.len() ==> #[trigger] is_good_provider(providers, k)
    &&& forall|k: int, j: int|
        i <= k < providers.len() && 0 <= j < providers[k].models@.len()
            ==> #[trigger] is_good_model(providers[k], j)
}

proof fn lemma_good_providers(providers: Seq<ProviderConfig>, i: int)
    requires
        0 <= i <= providers.len(),
    ensures
        config::providers_fault(providers, i) is None <==> are_good(providers, i),
    decreases providers.len() - i,
{
    if i < providers.len() {
        lemma_good_provider(providers, i);
        lemma_good_models(providers[i], 0);
        lemma_good_providers(providers, i + 1);
    }
}

/// Whether a configured model has this id: the name of its provider, a slash,
/// and its own id.
pub open spec fn is_configured(config: ProvidersConfig, id: Seq<char>, i: int, j: int) -> bool {
    &&& 0 <= i < config.providers@.len()
    &&& 0 <= j < config.providers@[i].models@.len()
    &&& id == config.providers@[i].name@ + "/"@ + config.providers@[i].models@[j].id@
}

/// A configuration is accepted exactly when it has a provider, every provider
/// and every model can be used, and the default model is one of them.
pub proof fn sound_configurations_are_accepted(config: ProvidersConfig)
    ensures
        config::config_fault(config) is None <==> {
            let providers = config.providers@;
            &&& providers.len() > 0
            &&& are_good(providers, 0)
            &&& exists|i: int, j: int|
                #[trigger] is_configured(config, config.default_model@, i, j)
        },
{
    let providers = config.providers@;
    let n = providers.len() as int;
    let all = config::catalog(providers, n);
    lemma_good_providers(providers, 0);
    lemma_choice_at(all, 0, config.default_model@);
    match config::choice_at(all, 0, config.default_model@) {
        Some(x) => {
            let (i, j) = lemma_catalog_origin(providers, n, x);
            assert(is_configured(config, config.default_model@, i, j));
        },
        None => {
            assert forall|i: int, j: int| !#[trigger] is_configured(
                config,
                config.default_model@,
                i,
                j,
            ) by {
                if is_configured(config, config.default_model@, i, j) {
                    let x = lemma_catalog_holds(providers, n, i, j);
                    assert(all[x].registry_id == config.default_model@);
                }
            }
        },
    }
}

proof fn lemma_choice_at(choices: Seq<Choice>, i: int, id: Seq<char>)
    requires
        0 <= i <= choices.len(),
    ensures
        config::choice_at(choices, i, id) matches Some(k) ==> i <= k < choices.len()
            && choices[k].registry_id == id && forall|j: int|
            i <= j < k ==> (#[trigger] choices[j]).registry_id != id,
        config::choice_at(choices, i, id) is None ==> forall|k: int|
            i <= k < choices.len() ==> (#[trigger] choices[k]).registry_id != id,
    decreases choices.len() - i,
{
    if i < choices.len() && choices[i].registry_id != id {
        lemma_choice_at(choices, i + 1, id);
    }
}

proof fn lemma_catalog_origin(providers: Seq<ProviderConfig>, n: int, x: int) -> (r: (int, int))
    requires
        0 <= n <= providers.len(),
        0 <= x < config::catalog(providers, n).len(),
    ensures
        0 <= r.0 < n,
        0 <= r.1 < providers[r.0].models@.len(),
        offers(config::catalog(providers, n)[x], providers[r.0], r.1),
    decreases n,
{
    let before = config::catalog(providers, n - 1);
    if x < before.len() {
        lemma_catalog_origin(providers, n - 1, x)
    } else {
        (n - 1, x - before.len())
    }
}

/// Whether a choice is model `j` of a provider, in its own words.
pub open spec fn offers(choice: Choice, p: ProviderConfig, j: int) -> bool {
    let m = p.models@[j];
    &&& choice.registry_id == p.name@ + "/"@ + m.id@
    &&& choice.provider == p.name@
    &&& choice.model == m.id@
    &&& choice.display_name == m.name@
    &&& choice.context_window == m.context_window
    &&& choice.efforts == text::texts(m.efforts@)
}

proof fn lemma_catalog_holds(providers: Seq<ProviderConfig>, n: int, i: int, j: int) -> (x: int)
    requires
        0 <= i < n <= providers.len(),
        0 <= j < providers[i].models@.len(),
    ensures
        0 <= x < config::catalog(providers, n).len(),
        offers(config::catalog(providers, n)[x], providers[i], j),
    decreases n,
{
    let before = config::catalog(providers, n - 1);
    if i == n - 1 {
        before.len() + j
    } else {
        lemma_catalog_holds(providers, n - 1, i, j)
    }
}

/// Every configured model is offered once, in its own words, and found by its
/// id; nothing else is offered.
pub proof fn every_configured_model_is_offered(config: ProvidersConfig, i: int, j: int)
    requires
        config::config_fault(config) is None,
        0 <= i < config.providers@.len(),
        0 <= j < config.providers@[i].models@.len(),
    ensures
        ({
            let all = config::catalog(config.providers@, config.providers@.len() as int);
            let p = config.providers@[i];
            let x = config::choice_at(all, 0, p.name@ + "/"@ + p.models@[j].id@);
            &&& x is Some
            &&& 0 <= x->0 < all.len()
            &&& offers(all[x->0], p, j)
            &&& forall|y: int|
                0 <= y < all.len() && (#[trigger] all[y]).registry_id == p.name@ + "/"@
                    + p.models@[j].id@ ==> y == x->0
        }),
{
    let n = config.providers@.len() as int;
    let all = config::catalog(config.providers@, n);
    let p = config.providers@[i];
    let id = p.name@ + "/"@ + p.models@[j].id@;
    let x = lemma_catalog_holds(config.providers@, n, i, j);
    lemma_choice_at(all, 0, id);
    let found = config::choice_at(all, 0, id)->0;
    assert(all[x].registry_id == id);
    if found != x {
        config::registry_ids_are_unique(config, found, x);
    }
    assert forall|y: int|
        0 <= y < all.len() && (#[trigger] all[y]).registry_id == id implies y == found by {
        if y != found {
            config::registry_ids_are_unique(config, found, y);
        }
    }
}

/// Each choice is a configured model.
pub proof fn choices_are_configured(config: ProvidersConfig, x: int) -> (r: (int, int))
    requires
        0 <= x < config::catalog(config.providers@, config.providers@.len() as int).len(),
    ensures
        0 <= r.0 < config.providers@.len(),
        0 <= r.1 < config.providers@[r.0].models@.len(),
        offers(
            config::catalog(config.providers@, config.providers@.len() as int)[x],
            config.providers@[r.0],
            r.1,
        ),
{
    lemma_catalog_origin(config.providers@, config.providers@.len() as int, x)
}

/// The effort goes where the provider says, and without that where its
/// protocol has it.
pub proof fn efforts_have_their_place(p: ProviderConfig)
    ensures
        p.effort_path matches Some(path) ==> config::effort_path_text(p) == path@,
        p.effort_path is None && p.protocol == ProviderProtocol::OpenaiChatCompletions
            ==> config::effort_path_text(p) == "reasoning_effort"@,
        p.effort_path is None && p.protocol != ProviderProtocol::OpenaiChatCompletions
            ==> config::effort_path_text(p) == "reasoning.effort"@,
        text::join(config::effort_segments(p), seq!['.']) == config::effort_path_text(p),
{
    text_laws::splitting_is_undone_by_joining(config::effort_path_text(p), '.');
}

proof fn lemma_field_at(fields: Seq<Field>, i: int, name: Seq<char>)
    requires
        0 <= i <= fields.len(),
    ensures
        config::field_at(fields, i, name) matches Some(k) ==> i <= k < fields.len()
            && fields[k].name@ == name,
        config::field_at(fields, i, name) is None ==> forall|k: int|
            i <= k < fields.len() ==> (#[trigger] fields[k]).name@ != name,
    decreases fields.len() - i,
{
    if i < fields.len() && fields[i].name@ != name {
        lemma_field_at(fields, i + 1, name);
    }
}

/// The place for the effort is free where no request option has its name, and
/// taken where one has; behind an option that is no table there is none.
pub proof fn free_places_hold_no_option(fields: Seq<Field>, path: Seq<Seq<char>>, i: int)
    requires
        0 <= i < path.len(),
    ensures
        (forall|k: int| 0 <= k < fields.len() ==> (#[trigger] fields[k]).name@ != path[i])
            ==> config::slot_at(fields, path, i) == Slot::Free,
        i + 1 == path.len() && (exists|k: int|
            0 <= k < fields.len() && (#[trigger] fields[k]).name@ == path[i]) ==> config::slot_at(
            fields,
            path,
            i,
        ) == Slot::Taken,
        i + 1 < path.len() && (exists|k: int|
            0 <= k < fields.len() && (#[trigger] fields[k]).name@ == path[i]) && (forall|k: int|
            0 <= k < fields.len() && (#[trigger] fields[k]).name@ == path[i]
                ==> fields[k].value is Value) ==> config::slot_at(fields, path, i)
            == Slot::Blocked,
        i + 1 < path.len() && fields.len() == 1 && fields[0].name@ == path[i] ==> (
        fields[0].value matches Setting::Table(inner) ==> config::slot_at(fields, path, i)
            == config::slot_at(inner@, path, i + 1)),
{
    lemma_field_at(fields, 0, path[i]);
}

/// A file that was not found is no fault on a machine with a Codex login, one
/// that cannot be read or parsed always is.
pub proof fn missing_files_need_a_login(path: Seq<char>, source: ConfigSource, codex: bool)
    ensures
        source is Parsed ==> config::source_fault(path, source, codex) is None,
        source matches ConfigSource::Missing(cause) ==> (config::source_fault(path, source, codex)
            == if codex {
            None
        } else {
            Some(Fault::Read(path, cause@))
        }),
        source matches ConfigSource::Unreadable(cause) ==> config::source_fault(
            path,
            source,
            codex,
        ) == Some(Fault::Read(path, cause@)),
        source matches ConfigSource::Malformed(cause) ==> config::source_fault(path, source, codex)
            == Some(Fault::Parse(path, cause@)),
{
}

/// The built-in provider offers its three models with all efforts from none to
/// the most, asks for summaries of what they think, and needs no key.
pub proof fn the_built_in_provider_offers_its_models(
    p: ProviderConfig,
    name: Seq<char>,
    i: int,
    k: int,
)
    requires
        config::is_builtin_codex(p, name),
        0 <= i < p.models@.len(),
        0 <= k < p.models@[i].efforts@.len(),
    ensures
        p.name@ == name,
        p.protocol == ProviderProtocol::OpenaiCodex,
        p.api_key is None && p.api_key_env is None,
        p.models@.len() == 3,
        p.models@[0].id@ == "gpt-5.6-luna"@ && p.models@[1].id@ == "gpt-5.6-sol"@
            && p.models@[2].id@ == "gpt-5.6-terra"@,
        p.models@[i].context_window == 1_050_000,
        p.models@[i].efforts@.len() == 6,
        k == 0 ==> p.models@[i].efforts@[k]@ == "none"@,
        k == 1 ==> p.models@[i].efforts@[k]@ == "low"@,
        k == 2 ==> p.models@[i].efforts@[k]@ == "medium"@,
        k == 3 ==> p.models@[i].efforts@[k]@ == "high"@,
        k == 4 ==> p.models@[i].efforts@[k]@ == "xhigh"@,
        k == 5 ==> p.models@[i].efforts@[k]@ == "max"@,
        ({
            let extra = p.models@[i].extra_body@;
            &&& extra.len() == 1 && extra[0].name@ == "reasoning"@
            &&& extra[0].value matches Setting::Table(inner) && inner@.len() == 1
                && inner@[0].name@ == "summary"@
        }),
{
    let m = p.models@[i];
    assert(text::texts(m.efforts@) == config::codex_efforts());
    assert(text::texts(m.efforts@).len() == m.efforts@.len());
    assert(text::texts(m.efforts@)[k] == m.efforts@[k]@);
    assert(p.models@[0].id@ == config::codex_models()[0].0);
    assert(p.models@[1].id@ == config::codex_models()[1].0);
    assert(p.models@[2].id@ == config::codex_models()[2].0);
}

/// A login adds the built-in provider behind those of the file, under a name
/// that none of them has, unless the file has one of its kind.
pub proof fn logins_add_the_built_in_provider(
    before: ProvidersConfig,
    after: ProvidersConfig,
    codex: bool,
    i: int,
)
    requires
        config::completed(before, after, codex),
        0 <= i < before.providers@.len(),
    ensures
        after.default_model == before.default_model,
        after.providers@[i] == before.providers@[i],
        !codex ==> after == before,
        before.providers@[i].protocol == ProviderProtocol::OpenaiCodex ==> after == before,
        codex && !config::has_codex(before) ==> after.providers@.len() == before.providers@.len()
            + 1 && after.providers@.last().protocol == ProviderProtocol::OpenaiCodex
            && after.providers@.last().name@ != before.providers@[i].name@,
{
    if codex && !config::has_codex(before) {
        assert(after.providers@.take(before.providers@.len() as int)[i] == after.providers@[i]);
        let taken = config::names(before);
        config::unique_names_are_free(taken, "codex"@);
        assert(taken[i] == before.providers@[i].name@);
        assert(taken.contains(before.providers@[i].name@));
    }
}

} // verus!
