use game_translator::credentials::{
    delete_answer, entry_answer, read_answer, write_answer, CredentialStore, InMemoryCredentialStore, PasswordDelete,
    PasswordRead,
};
use game_translator::errors::{AppError, AppErrorCode};
use game_translator::product_name;
use game_translator::providers::{
    performance_settings, PerformanceSettings, ProviderChoice, ProviderFactory, ProviderSettings,
    TaskStatus,
};

#[test]
fn exposes_the_product_name() {
    assert_eq!(product_name(), "GameTranslator");
}

#[test]
fn lib_desktop_uses_the_core_product_name() {
    assert_eq!(product_name(), "GameTranslator");
}

#[test]
fn mod_desktop_uses_the_core_product_name() {
    assert_eq!(product_name(), "GameTranslator");
}

#[test]
fn lib_deepseek_fast_mode_uses_small_batches_and_adaptive_headroom() {
    assert_eq!(performance_settings("openai", "fast"), (16, 8_000, 16, 128));
}

#[test]
fn mod_deepseek_fast_mode_uses_small_batches_and_adaptive_headroom() {
    assert_eq!(
        PerformanceSettings::for_provider("openai", "fast"),
        PerformanceSettings::new(16, 8_000, 16, 128)
    );
}

#[test]
fn translation_performance_policy_is_owned_by_the_application_layer() {
    assert_eq!(
        PerformanceSettings::for_provider("ollama", "fast"),
        PerformanceSettings::new(48, 20_000, 2, 2)
    );
    assert_eq!(
        PerformanceSettings::for_provider("openai", "balanced"),
        PerformanceSettings::new(24, 12_000, 8, 64)
    );
}

#[test]
fn performance_policy_covers_every_mode() {
    assert_eq!(performance_settings("ollama", "stable"), (32, 16_000, 1, 1));
    assert_eq!(performance_settings("openai", "stable"), (32, 16_000, 4, 16));
    assert_eq!(performance_settings("openai", "anything"), (24, 12_000, 8, 64));
}

#[test]
fn application_errors_expose_stable_codes_without_losing_the_message() {
    let error = AppError::new(AppErrorCode::ProviderRateLimited, "模型服务限流".to_string());

    assert_eq!(error.code(), AppErrorCode::ProviderRateLimited);
    assert_eq!(error.message(), "模型服务限流");
    assert_eq!(error.to_text(), "模型服务限流");
}

#[test]
fn a_bare_message_becomes_an_unexpected_error() {
    let error = AppError::from("出错了".to_string());
    assert_eq!(error.code(), AppErrorCode::Unexpected);
    assert_eq!(error.message(), "出错了");
}

#[test]
fn task_status_only_allows_documented_transitions() {
    assert!(TaskStatus::Pending.can_transition_to(TaskStatus::Running));
    assert!(TaskStatus::Running.can_transition_to(TaskStatus::Paused));
    assert!(TaskStatus::Paused.can_transition_to(TaskStatus::Running));
    assert!(TaskStatus::Running.can_transition_to(TaskStatus::Completed));
    assert!(!TaskStatus::Completed.can_transition_to(TaskStatus::Running));
    assert!(!TaskStatus::Failed.can_transition_to(TaskStatus::Completed));
}

#[test]
fn credential_store_supports_write_read_and_delete() {
    let mut store = InMemoryCredentialStore::default();

    store.set("provider-1", "secret-key").unwrap();
    assert_eq!(
        store.get("provider-1").unwrap().as_deref(),
        Some("secret-key")
    );
    store.delete("provider-1").unwrap();
    assert_eq!(store.get("provider-1").unwrap(), None);
}

#[test]
fn credential_store_overwrites_and_keeps_other_providers() {
    let mut store = InMemoryCredentialStore::new();
    store.set("a", "one").unwrap();
    store.set("b", "two").unwrap();
    store.set("a", "three").unwrap();
    assert_eq!(store.get("a").unwrap().as_deref(), Some("three"));
    assert_eq!(store.get("b").unwrap().as_deref(), Some("two"));
    store.delete("a").unwrap();
    assert_eq!(store.get("a").unwrap(), None);
    assert_eq!(store.get("b").unwrap().as_deref(), Some("two"));
    store.delete("missing").unwrap();
    assert_eq!(store.get("b").unwrap().as_deref(), Some("two"));
}

#[test]
fn provider_factory_requires_credentials_only_for_remote_providers() {
    let credentials = InMemoryCredentialStore::default();
    let ollama = ProviderSettings::new("ollama", "http://localhost:11434", "qwen");
    assert!(ProviderFactory::new(&credentials).create(&ollama).is_ok());

    let remote = ProviderSettings::new("openai", "https://api.example.test", "model");
    let Err(error) = ProviderFactory::new(&credentials).create(&remote) else {
        panic!("remote provider must require a credential");
    };
    assert_eq!(error.code(), AppErrorCode::CredentialMissing);
    assert_eq!(error.message(), "尚未保存 API Key");
}

#[test]
fn deepseek_providers_carry_the_desktop_user_id() {
    let mut credentials = InMemoryCredentialStore::default();
    credentials.set("default-provider", "key").unwrap();
    let deepseek = ProviderSettings::new("openai", "https://api.deepseek.com", "deepseek-chat");
    assert_eq!(
        ProviderFactory::new(&credentials).create(&deepseek).unwrap(),
        ProviderChoice::OpenAiCompatible {
            base_url: "https://api.deepseek.com".to_string(),
            api_key: "key".to_string(),
            user_id: Some("game-translator-desktop".to_string()),
        }
    );
    let other = ProviderSettings::new("openai", "https://api.example.test", "gpt");
    assert_eq!(
        ProviderFactory::new(&credentials).create(&other).unwrap(),
        ProviderChoice::OpenAiCompatible {
            base_url: "https://api.example.test".to_string(),
            api_key: "key".to_string(),
            user_id: None,
        }
    );
    let by_model = ProviderSettings::new("openai", "https://proxy.test", "deepseek-reasoner");
    assert!(matches!(
        ProviderFactory::new(&credentials).create(&by_model).unwrap(),
        ProviderChoice::OpenAiCompatible { user_id: Some(_), .. }
    ));
}

#[test]
fn platform_store_answers_map_to_results() {
    assert_eq!(read_answer(PasswordRead::Found("sk".to_owned())).unwrap(), Some("sk".to_owned()));
    assert_eq!(read_answer(PasswordRead::NoEntry).unwrap(), None);
    assert_eq!(read_answer(PasswordRead::Failed("locked".to_owned())).unwrap_err().message(), "locked");
    assert!(delete_answer(PasswordDelete::Deleted).is_ok());
    assert!(delete_answer(PasswordDelete::NoEntry).is_ok());
    assert_eq!(delete_answer(PasswordDelete::Failed("denied".to_owned())).unwrap_err().message(), "denied");
}

#[test]
fn platform_writes_and_entries_map_to_results() {
    assert!(write_answer(Ok(())).is_ok());
    assert_eq!(write_answer(Err("rejected".to_owned())).unwrap_err().message(), "rejected");
    match entry_answer(Err("no backend".to_owned())) {
        Err(error) => assert_eq!(error.message(), "no backend"),
        Ok(_) => panic!("an error was expected"),
    }
}
