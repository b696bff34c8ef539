use crate::credentials::{CredentialError, CredentialStore};
use crate::errors::{AppError, AppErrorCode};
use crate::renpy::{find_seq, starts_with};
use crate::text::{chars_of, owned, str_equal};
use vstd::prelude::*;

verus! {

/// The credential id under which the remote provider's API key is kept.
pub const DEFAULT_PROVIDER_CREDENTIAL: &'static str = "default-provider";

/// Which model service to use: its kind, address and model.
#[derive(Clone, Debug, PartialEq, Eq)]
pub struct ProviderSettings {
    pub kind: String,
    pub base_url: String,
    pub model: String,
}

impl ProviderSettings {
    pub fn new(kind: &str, base_url: &str, model: &str) -> (s: ProviderSettings)
        ensures
            s.kind@ == kind@,
            s.base_url@ == base_url@,
            s.model@ == model@,
    {
        ProviderSettings { kind: owned(kind), base_url: owned(base_url), model: owned(model) }
    }
}

/// The provider to build: a local Ollama service, or an OpenAI-compatible
/// service with its API key and, for DeepSeek, a user id.
#[derive(Clone, Debug, PartialEq, Eq)]
pub enum ProviderChoice {
    Ollama { base_url: String },
    OpenAiCompatible { base_url: String, api_key: String, user_id: Option<String> },
}

/// Model of a [`ProviderChoice`].
pub enum ChoiceModel {
    Ollama { base_url: Seq<char> },
    OpenAiCompatible { base_url: Seq<char>, api_key: Seq<char>, user_id: Option<Seq<char>> },
}

pub open spec fn choice_model(c: ProviderChoice) -> ChoiceModel {
    match c {
        ProviderChoice::Ollama { base_url } => ChoiceModel::Ollama { base_url: base_url@ },
        ProviderChoice::OpenAiCompatible { base_url, api_key, user_id } =>
            ChoiceModel::OpenAiCompatible {
            base_url: base_url@,
            api_key: api_key@,
            user_id: match user_id {
                Some(u) => Some(u@),
                None => None,
            },
        },
    }
}

/// An error model: its code and message.
pub open spec fn app_error_model(e: AppError) -> (AppErrorCode, Seq<char>) {
    (e.spec_code(), e.spec_message())
}

pub open spec fn choice_result(r: Result<ProviderChoice, AppError>) -> Result<
    ChoiceModel,
    (AppErrorCode, Seq<char>),
> {
    match r {
        Ok(c) => Ok(choice_model(c)),
        Err(e) => Err(app_error_model(e)),
    }
}

pub open spec fn missing_key_message() -> Seq<char> {
    "尚未保存 API Key"@
}

/// Whether a service is DeepSeek's, by its address or model name.
pub open spec fn is_deepseek(base_url: Seq<char>, model: Seq<char>) -> bool {
    find_seq(base_url, "deepseek"@, 0) is Some || starts_with(model, "deepseek-"@)
}

/// The provider for `settings`, given what the credential store returned
/// for the default credential.
pub open spec fn provider_for(
    kind: Seq<char>,
    base_url: Seq<char>,
    model: Seq<char>,
    stored: Result<Option<Seq<char>>, Seq<char>>,
) -> Result<ChoiceModel, (AppErrorCode, Seq<char>)> {
    if kind == "ollama"@ {
        Ok(ChoiceModel::Ollama { base_url })
    } else {
        match stored {
            Err(m) => Err((AppErrorCode::StorageFailure, m)),
            Ok(None) => Err((AppErrorCode::CredentialMissing, missing_key_message())),
            Ok(Some(key)) => Ok(
                ChoiceModel::OpenAiCompatible {
                    base_url,
                    api_key: key,
                    user_id: if is_deepseek(base_url, model) {
                        Some("game-translator-desktop"@)
                    } else {
                        None
                    },
                },
            ),
        }
    }
}

pub open spec fn stored_model(stored: Result<Option<String>, CredentialError>) -> Result<
    Option<Seq<char>>,
    Seq<char>,
> {
    crate::credentials::answer_model(stored)
}

/// Whether `text` contains `part`.
fn contains_text(text: &str, part: &str) -> (r: bool)
    ensures
        r == (find_seq(text@, part@, 0) is Some),
{
    let t = chars_of(text);
    let p = chars_of(part);
    if p.len() > t.len() {
        return false;
    }
    let mut i: usize = 0;
    if p.len() == 0 {
        assert(t@.subrange(0, 0) =~= p@);
        return true;
    }
    while i <= t.len() - p.len()
        invariant
            0 < p.len() <= t.len(),
            t@ == text@,
            p@ == part@,
            i <= t.len() - p.len() + 1,
            find_seq(t@, p@, 0) == find_seq(t@, p@, i as int),
        decreases t.len() - p.len() + 1 - i,
    {
        let head = crate::text::slice_chars(&t, i, i + p.len());
        if crate::text::chars_equal(&head, &p) {
            return true;
        }
        i = i + 1;
    }
    false
}

/// The provider for `settings`, given what the credential store returned for
/// the default credential.
pub fn choose_provider(settings: &ProviderSettings, stored: Result<Option<String>, CredentialError>) -> (r:
    Result<ProviderChoice, AppError>)
    ensures
        choice_result(r) == provider_for(
            settings.kind@,
            settings.base_url@,
            settings.model@,
            stored_model(stored),
        ),
{
    proof {
        reveal_strlit("ollama");
        reveal_strlit("deepseek");
        reveal_strlit("deepseek-");
        reveal_strlit("game-translator-desktop");
        reveal_strlit("尚未保存 API Key");
    }
    if str_equal(settings.kind.as_str(), "ollama") {
        return Ok(ProviderChoice::Ollama { base_url: owned(settings.base_url.as_str()) });
    }
    let key = match stored {
        Err(e) => {
            return Err(AppError::new(AppErrorCode::StorageFailure, owned(e.message())));
        },
        Ok(None) => {
            return Err(AppError::new(AppErrorCode::CredentialMissing, owned("尚未保存 API Key")));
        },
        Ok(Some(k)) => k,
    };
    let model = chars_of(settings.model.as_str());
    let deepseek = contains_text(settings.base_url.as_str(), "deepseek")
        || crate::renpy::begins_with(&model, "deepseek-");
    let user_id = if deepseek {
        Some(owned("game-translator-desktop"))
    } else {
        None
    };
    Ok(ProviderChoice::OpenAiCompatible { base_url: owned(settings.base_url.as_str()), api_key: key, user_id })
}

/// Builds the provider for a settings from the credentials it may need.
pub struct ProviderFactory<'a, C: CredentialStore> {
    credentials: &'a C,
}

impl<'a, C: CredentialStore> ProviderFactory<'a, C> {
    pub fn new(credentials: &'a C) -> (f: Self)
        ensures
            f.store() == credentials,
    {
        ProviderFactory { credentials }
    }

    pub closed spec fn store(&self) -> &'a C {
        self.credentials
    }

    /// The provider for `settings`: a local Ollama service needs no
    /// credential; for a remote service the store is asked for the secret
    /// under `default-provider`, and its answer decides: an error gives
    /// `StorageFailure`, no secret gives `CredentialMissing`, a secret gives
    /// the provider with that API key.
    pub fn create(&self, settings: &ProviderSettings) -> (r: Result<ProviderChoice, AppError>)
        ensures
            settings.kind@ == "ollama"@ ==> choice_result(r) == Ok::<
                ChoiceModel,
                (AppErrorCode, Seq<char>),
            >(ChoiceModel::Ollama { base_url: settings.base_url@ }),
            settings.kind@ != "ollama"@ ==> exists|stored: Result<Option<Seq<char>>, Seq<char>>|
                #![trigger self.store().answers(DEFAULT_PROVIDER_CREDENTIAL@, stored)]
                self.store().answers(DEFAULT_PROVIDER_CREDENTIAL@, stored) && choice_result(r)
                    == provider_for(
                    settings.kind@,
                    settings.base_url@,
                    settings.model@,
                    stored,
                ),
    {
        proof {
            reveal_strlit("ollama");
        }
        if str_equal(settings.kind.as_str(), "ollama") {
            return choose_provider(settings, Ok(None));
        }
        let stored = self.credentials.get(DEFAULT_PROVIDER_CREDENTIAL);
        let ghost s = stored_model(stored);
        let r = choose_provider(settings, stored);
        assert(choice_result(r) == provider_for(settings.kind@, settings.base_url@, settings.model@, s));
        assert(self.store().answers(DEFAULT_PROVIDER_CREDENTIAL@, s));
        r
    }
}

/// How many segments go in a request, how much text a batch may hold, and
/// how many requests may run at once.
#[derive(Clone, Copy, Debug, PartialEq, Eq, Structural)]
pub struct PerformanceSettings {
    pub batch_size: usize,
    pub character_budget: usize,
    pub initial_concurrency: usize,
    pub max_concurrency: usize,
}

/// The performance policy for a provider kind and a mode, as a tuple.
pub open spec fn performance_for(kind: Seq<char>, mode: Seq<char>) -> (usize, usize, usize, usize) {
    if kind == "ollama"@ && mode == "fast"@ {
        (48, 20_000, 2, 2)
    } else if kind == "ollama"@ {
        (32, 16_000, 1, 1)
    } else if mode == "stable"@ {
        (32, 16_000, 4, 16)
    } else if mode == "fast"@ {
        (16, 8_000, 16, 128)
    } else {
        (24, 12_000, 8, 64)
    }
}

impl PerformanceSettings {
    pub fn new(
        batch_size: usize,
        character_budget: usize,
        initial_concurrency: usize,
        max_concurrency: usize,
    ) -> (s: PerformanceSettings)
        ensures
            s == (PerformanceSettings {
                batch_size,
                character_budget,
                initial_concurrency,
                max_concurrency,
            }),
    {
        PerformanceSettings { batch_size, character_budget, initial_concurrency, max_concurrency }
    }

    /// The performance policy for a provider kind and a mode (`fast`,
    /// `stable` or anything else for balanced).
    pub fn for_provider(kind: &str, mode: &str) -> (s: PerformanceSettings)
        ensures
            (s.batch_size, s.character_budget, s.initial_concurrency, s.max_concurrency)
                == performance_for(kind@, mode@),
    {
        let (a, b, c, d) = performance_settings(kind, mode);
        PerformanceSettings::new(a, b, c, d)
    }
}

/// The performance policy for a provider kind and a mode, as
/// `(batch size, character budget, initial concurrency, maximum concurrency)`.
pub fn performance_settings(kind: &str, mode: &str) -> (r: (usize, usize, usize, usize))
    ensures
        r == performance_for(kind@, mode@),
{
    proof {
        reveal_strlit("ollama");
        reveal_strlit("fast");
        reveal_strlit("stable");
    }
    let ollama = str_equal(kind, "ollama");
    if ollama && str_equal(mode, "fast") {
        (48, 20_000, 2, 2)
    } else if ollama {
        (32, 16_000, 1, 1)
    } else if str_equal(mode, "stable") {
        (32, 16_000, 4, 16)
    } else if str_equal(mode, "fast") {
        (16, 8_000, 16, 128)
    } else {
        (24, 12_000, 8, 64)
    }
}

/// The state of a translation task.
#[derive(Clone, Copy, Debug, PartialEq, Eq, Structural)]
pub enum TaskStatus {
    Pending,
    Running,
    Paused,
    Completed,
    Failed,
}

/// The documented transitions between task states.
pub open spec fn allowed_transition(from: TaskStatus, to: TaskStatus) -> bool {
    ||| from == TaskStatus::Pending && to == TaskStatus::Running
    ||| from == TaskStatus::Running && to == TaskStatus::Paused
    ||| from == TaskStatus::Paused && to == TaskStatus::Running
    ||| from == TaskStatus::Running && to == TaskStatus::Completed
}

impl TaskStatus {
    /// Whether a task may move from this state to `next`.
    pub fn can_transition_to(self, next: TaskStatus) -> (r: bool)
        ensures
            r == allowed_transition(self, next),
    {
        match (self, next) {
            (TaskStatus::Pending, TaskStatus::Running) => true,
            (TaskStatus::Running, TaskStatus::Paused) => true,
            (TaskStatus::Paused, TaskStatus::Running) => true,
            (TaskStatus::Running, TaskStatus::Completed) => true,
            _ => false,
        }
    }
}

} // verus!
