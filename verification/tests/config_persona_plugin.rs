use nota::bus::{BusEvent, EventKind};
use nota::config::{base_dir, base_dir_in, mask_key, Config, ConfigError, ConfigStore, ProviderDef, ProviderTable};
use nota::llm::ChatMessage;
use nota::permissions::PermissionRegistry;
use nota::persona::{
    incoming_entry, incoming_message, reply_of, system_prompt, ChatLogEntry, Persona, PersonaHandler, StubLlm,
};
use nota::persona_store::{FileCache, FilePersonaStore};
use nota::plugin::{bootstrap_script, is_manifest, manifest_path, PluginError, PluginTable};

fn provider(id: &str, name: &str) -> ProviderDef {
    ProviderDef {
        id: id.to_string(),
        name: name.to_string(),
        api_url: format!("https://{id}.example/v1"),
        default_model: format!("{id}-model"),
    }
}

fn event(sender: &str, target: Option<&str>) -> BusEvent {
    BusEvent {
        kind: EventKind::Message,
        sender: sender.to_string(),
        content: "hello".to_string(),
        timestamp: 9,
        context: "ctx".to_string(),
        request_id: Some("r".to_string()),
        parent_request_id: None,
        target: target.map(|t| t.to_string()),
    }
}

#[test]
fn mask_short_and_long_keys() {
    assert_eq!(mask_key(""), "");
    assert_eq!(mask_key("abc"), "***");
    assert_eq!(mask_key("12345678"), "********");
    assert_eq!(mask_key("sk-abcdef123456"), "sk-a****3456");
    assert_eq!(mask_key("123456789"), "1234****6789");
}

#[test]
fn config_store_holds_what_was_set() {
    let mut store = ConfigStore::new("/home/u/.nota");
    assert_eq!(store.config_file, "/home/u/.nota/config.toml");
    assert!(store.get().is_none());
    assert!(matches!(store.loaded(), Err(ConfigError::NotLoaded)));
    store.set(Config { api_url: "u".to_string(), api_key: "k".to_string(), model: "m".to_string() });
    let c = store.get().unwrap();
    assert_eq!((c.api_url.as_str(), c.api_key.as_str(), c.model.as_str()), ("u", "k", "m"));
    assert_eq!(store.loaded().unwrap().model, "m");
}

#[test]
fn config_error_messages() {
    let store = ConfigStore::new("/b");
    assert_eq!(store.not_found().message(), "config.toml not found at /b/config.toml");
    assert_eq!(ConfigError::NotLoaded.message(), "Should config::load() first");
}

#[test]
fn base_directory() {
    assert_eq!(base_dir_in("/home/u"), "/home/u/.nota");
    if let Some(d) = base_dir() {
        assert!(d.ends_with(".nota"));
    }
}

#[test]
fn provider_lookup() {
    let t = ProviderTable::from_defs(vec![provider("openai", "OpenAI"), provider("ds", "DeepSeek"), provider("openai", "OpenAI 2")]);
    let mut ids = t.provider_ids();
    ids.sort();
    assert_eq!(ids, vec!["ds".to_string(), "openai".to_string()]);
    assert_eq!(t.provider_name("openai").as_deref(), Some("OpenAI 2"));
    assert_eq!(t.provider_url("ds").as_deref(), Some("https://ds.example/v1"));
    assert_eq!(t.provider_default_model("ds").as_deref(), Some("ds-model"));
    assert_eq!(t.provider_name("none"), None);
}

#[test]
fn persona_accepts_only_what_is_for_it() {
    let p = Persona { name: "alice".to_string() };
    assert!(p.accepts(&event("user", None)));
    assert!(p.accepts(&event("user", Some("alice"))));
    assert!(!p.accepts(&event("user", Some("bob"))));
    assert!(!p.accepts(&event("alice", None)));
}

#[test]
fn chatlog_roles_and_entries() {
    let p = Persona { name: "alice".to_string() };
    let entries = vec![
        ChatLogEntry { sender: "user".to_string(), content: "hi".to_string(), timestamp: 1, context: String::new() },
        ChatLogEntry { sender: "alice".to_string(), content: "hello".to_string(), timestamp: 2, context: String::new() },
    ];
    let msgs = p.chatlog_messages(entries);
    assert_eq!(msgs[0].role, "user");
    assert_eq!(msgs[1].role, "assistant");
    assert_eq!(msgs[1].content.as_deref(), Some("hello"));

    let added = vec![
        ChatMessage { role: "assistant".to_string(), content: None, tool_calls: Some(vec![]), tool_call_id: None },
        ChatMessage { role: "tool".to_string(), content: Some("out".to_string()), tool_calls: None, tool_call_id: Some("c".to_string()) },
    ];
    let log = p.log_entries(&added, 55);
    assert_eq!(log[0].content, "[assistant]");
    assert_eq!(log[1].content, "out");
    assert!(log.iter().all(|e| e.sender == "alice" && e.timestamp == 55 && e.context.is_empty()));

    let e = incoming_entry(&event("user", None));
    assert_eq!((e.sender.as_str(), e.content.as_str(), e.timestamp, e.context.as_str()), ("user", "hello", 9, "ctx"));
    let m = incoming_message(&event("user", None));
    assert_eq!((m.role.as_str(), m.content.as_deref()), ("user", Some("hello")));
}

#[test]
fn reply_is_the_last_assistant_text() {
    let a = ChatMessage { role: "assistant".to_string(), content: Some("done".to_string()), tool_calls: None, tool_call_id: None };
    let t = ChatMessage { role: "tool".to_string(), content: Some("x".to_string()), tool_calls: None, tool_call_id: None };
    assert_eq!(reply_of(&vec![t.clone(), a.clone()]).as_deref(), Some("done"));
    assert_eq!(reply_of(&vec![a, t]), None);
    assert_eq!(reply_of(&vec![]), None);
}

#[test]
fn system_prompt_sections() {
    let files = vec![
        ("solo.md".to_string(), Some("I am Alice.".to_string())),
        ("memory.md".to_string(), Some("Likes tea.".to_string())),
    ];
    assert_eq!(system_prompt(&files), "# solo.md\nI am Alice.\n\n# memory.md\nLikes tea.");
    let partial = vec![("solo.md".to_string(), None), ("memory.md".to_string(), Some("m".to_string()))];
    assert_eq!(system_prompt(&partial), "# memory.md\nm");
    let empty = vec![("solo.md".to_string(), Some(String::new()))];
    assert_eq!(system_prompt(&empty), "");
}

#[test]
fn stub_model_and_handler() {
    let _h = PersonaHandler::new();
    assert_eq!(StubLlm.chat("sys", &vec![]), "[Stub LLM response]");
}

#[test]
fn persona_files_and_cache() {
    let store = FilePersonaStore::new("/b");
    assert_eq!(store.personas_dir, "/b/personas");
    assert_eq!(store.workspace("alice"), "/b/personas/alice");
    assert_eq!(store.persona_file("alice", "solo.md"), "/b/personas/alice/solo.md");

    let mut cache = FileCache::new();
    assert_eq!(cache.lookup("/f", (1, 0)), None);
    cache.store("/f".to_string(), "text".to_string(), (1, 0));
    assert_eq!(cache.lookup("/f", (1, 0)).as_deref(), Some("text"));
    assert_eq!(cache.lookup("/f", (2, 0)), None);
    cache.store("/f".to_string(), "new".to_string(), (2, 0));
    assert_eq!(cache.lookup("/f", (2, 0)).as_deref(), Some("new"));
}

#[test]
fn permission_requests_resolve_once() {
    let mut reg: PermissionRegistry<u8> = PermissionRegistry::new();
    let id = reg.register(7);
    assert_eq!(id.len(), 36);
    for (i, c) in id.chars().enumerate() {
        if [8, 13, 18, 23].contains(&i) {
            assert_eq!(c, '-');
        } else {
            assert!(c.is_ascii_hexdigit() && !c.is_ascii_uppercase());
        }
    }
    assert_eq!(id.chars().nth(14), Some('4'));
    assert!("89ab".contains(id.chars().nth(19).unwrap()));
    let other = reg.register(8);
    assert_ne!(id, other);
    assert_eq!(reg.resolve(&id), Some(7));
    assert_eq!(reg.resolve(&id), None);
    assert_eq!(reg.resolve(&other), Some(8));
}

#[test]
fn plugin_table_and_files() {
    let s = bootstrap_script("main();");
    assert!(s.starts_with("\nconst ctx = {"));
    assert!(s.ends_with("};\nmain();\n"));
    assert!(is_manifest("plugin.json"));
    assert!(!is_manifest("plugin.js"));
    assert_eq!(manifest_path("/b/plugins", "p"), "/b/plugins/p/plugin.json");

    let mut t: PluginTable<u8> = PluginTable::new();
    t.insert("p".to_string(), 1);
    t.insert("q".to_string(), 2);
    let mut names = t.list();
    names.sort();
    assert_eq!(names, vec!["p".to_string(), "q".to_string()]);
    assert_eq!(t.take_for_reload("p").unwrap(), 1);
    match t.take_for_reload("p") {
        Err(e) => assert_eq!(e.message(), "plugin 'p' not found"),
        Ok(_) => panic!("p was taken"),
    }
    let _ = PluginError::NotFound("z".to_string());
}

#[test]
fn saving_keeps_the_config_only_once_written() {
    let mut store = ConfigStore::new("/b");
    let first = Config { api_url: "u1".to_string(), api_key: "k1".to_string(), model: "m1".to_string() };
    assert!(store.record_save(first, Ok(())).is_ok());
    assert_eq!(store.get().unwrap().api_url, "u1");
    let second = Config { api_url: "u2".to_string(), api_key: "k2".to_string(), model: "m2".to_string() };
    assert_eq!(store.record_save(second, Err("disk full".to_string())), Err("disk full".to_string()));
    assert_eq!(store.get().unwrap().api_url, "u1");
    assert_eq!(store.config_file, "/b/config.toml");
}
