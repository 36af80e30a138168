use nota::bus::{BusEvent, EventKind};
use nota::config::{Config, ProviderDef, ProviderTable};
use nota::http::{first_present, locate_webui_dist, webui_dist_candidates};
use nota::llm::ChatMessage;
use nota::persona::{ChatLogEntry, Persona};
use nota::store::{check_unsaved, db_file_of_url};
use nota::session::Message;
use nota::wizard::{
    builtin_choice, chosen_key, custom_choice, default_model, default_selection, finish, key_question, menu_items,
    KeyPrompt, WizardError,
};

fn table() -> ProviderTable {
    ProviderTable::from_defs(vec![
        ProviderDef {
            id: "openai".to_string(),
            name: "OpenAI".to_string(),
            api_url: "https://api.openai.com/v1".to_string(),
            default_model: "gpt-4o-mini".to_string(),
        },
        ProviderDef {
            id: "ds".to_string(),
            name: "DeepSeek".to_string(),
            api_url: "https://api.deepseek.com".to_string(),
            default_model: "deepseek-chat".to_string(),
        },
    ])
}

fn config(url: &str, key: &str, model: &str) -> Config {
    Config { api_url: url.to_string(), api_key: key.to_string(), model: model.to_string() }
}

fn ids() -> Vec<String> {
    vec!["ds".to_string(), "openai".to_string(), "gone".to_string()]
}

#[test]
fn menu_lists_names_then_custom() {
    let items = menu_items(&table(), &ids());
    assert_eq!(items, vec!["DeepSeek", "OpenAI", "gone", "Custom"]);
}

#[test]
fn preselects_the_provider_in_use() {
    let t = table();
    let existing = config("https://api.openai.com/v1", "k", "m");
    assert_eq!(default_selection(&t, &ids(), Some(&existing)), 1);
    let other = config("https://example.com", "k", "m");
    assert_eq!(default_selection(&t, &ids(), Some(&other)), 3);
    assert_eq!(default_selection(&t, &ids(), None), 3);
}

#[test]
fn builtin_provider_offers_key_of_same_address() {
    let t = table();
    let existing = config("https://api.openai.com/v1", "sk-old", "m");
    let (url, p) = builtin_choice(&t, &ids(), 1, Some(&existing));
    assert_eq!(url, "https://api.openai.com/v1");
    assert_eq!(p.prompt, "OpenAI API Key");
    assert_eq!(p.existing.as_deref(), Some("sk-old"));

    let (url, p) = builtin_choice(&t, &ids(), 0, Some(&existing));
    assert_eq!(url, "https://api.deepseek.com");
    assert_eq!(p.prompt, "DeepSeek API Key");
    assert!(p.existing.is_none());

    let (url, p) = builtin_choice(&t, &ids(), 2, None);
    assert_eq!(url, "");
    assert_eq!(p.prompt, "gone API Key");
}

#[test]
fn custom_provider_defaults() {
    let (url, p) = custom_choice(None);
    assert_eq!(url, "https://api.openai.com/v1");
    assert_eq!(p.prompt, "API Key");
    assert!(p.existing.is_none());
    let existing = config("https://x.example", "k1", "m");
    let (url, p) = custom_choice(Some(&existing));
    assert_eq!(url, "https://x.example");
    assert_eq!(p.existing.as_deref(), Some("k1"));
}

#[test]
fn model_proposals() {
    let t = table();
    assert_eq!(default_model(&t, &ids(), 0, None), "deepseek-chat");
    assert_eq!(default_model(&t, &ids(), 2, None), "gpt-4o");
    assert_eq!(default_model(&t, &ids(), 3, None), "gpt-4o");
    let existing = config("u", "k", "my-model");
    assert_eq!(default_model(&t, &ids(), 0, Some(&existing)), "my-model");
}

#[test]
fn key_questions_and_answers() {
    let keep = KeyPrompt { prompt: "API Key".to_string(), existing: Some("sk-abcdef123456".to_string()) };
    assert_eq!(key_question(&keep), ("API Key [current: sk-a****3456]".to_string(), true));
    assert_eq!(chosen_key(keep, String::new()), "sk-abcdef123456");

    let keep = KeyPrompt { prompt: "API Key".to_string(), existing: Some("sk-abcdef123456".to_string()) };
    assert_eq!(chosen_key(keep, "new".to_string()), "new");

    let fresh = KeyPrompt { prompt: "API Key".to_string(), existing: None };
    assert_eq!(key_question(&fresh), ("API Key".to_string(), false));
    assert_eq!(chosen_key(fresh, "typed".to_string()), "typed");

    let empty = KeyPrompt { prompt: "Q".to_string(), existing: Some(String::new()) };
    assert_eq!(key_question(&empty), ("Q".to_string(), false));
    assert_eq!(chosen_key(empty, String::new()), "");
}

#[test]
fn confirmation_decides() {
    let c = finish("u".to_string(), "k".to_string(), "m".to_string(), true).unwrap();
    assert_eq!((c.api_url.as_str(), c.api_key.as_str(), c.model.as_str()), ("u", "k", "m"));
    let e = finish("u".to_string(), "k".to_string(), "m".to_string(), false).unwrap_err();
    assert_eq!(e, WizardError::Cancelled);
    assert_eq!(e.message(), "Configuration cancelled by user");
}

#[test]
fn webui_search() {
    assert_eq!(webui_dist_candidates(None), vec!["webui/dist", "../webui/dist", "../../webui/dist"]);
    let with_env = webui_dist_candidates(Some("/opt/ui".to_string()));
    assert_eq!(with_env[0], "/opt/ui");
    assert_eq!(with_env.len(), 4);
    assert_eq!(locate_webui_dist(Some("/opt/ui".to_string()), &vec![false, false, true, true]).unwrap(), "../webui/dist");
    assert_eq!(
        locate_webui_dist(None, &vec![false, false, false]).unwrap_err(),
        "could not locate webui/dist. Run `bun run build` in webui/ first."
    );
    assert_eq!(first_present(&vec!["a".to_string(), "b".to_string()], &vec![false, true]).as_deref(), Some("b"));
    assert_eq!(first_present(&vec![], &vec![]), None);
}

#[test]
fn bus_event_constructors() {
    let m = BusEvent::message("alice".to_string(), "hi".to_string(), Some("r".to_string()));
    assert_eq!(m.kind, EventKind::Message);
    assert_eq!((m.sender.as_str(), m.content.as_str()), ("alice", "hi"));
    assert!(m.target.is_none() && m.parent_request_id.is_none() && m.context.is_empty());
    let t = BusEvent::targeted_message("user".to_string(), "x".to_string(), None, "bob".to_string());
    assert_eq!(t.target.as_deref(), Some("bob"));
    let p = BusEvent::permission_request("alice".to_string(), "may I?".to_string(), "p1".to_string(), Some("r1".to_string()));
    assert_eq!(p.kind, EventKind::PermissionRequest);
    assert_eq!(p.request_id.as_deref(), Some("p1"));
    assert_eq!(p.parent_request_id.as_deref(), Some("r1"));
    let c = p.clone();
    assert_eq!(c.content, "may I?");
}

#[test]
fn a_persona_turn() {
    let alice = Persona { name: "alice".to_string() };
    let event = BusEvent::targeted_message("user".to_string(), "hello".to_string(), Some("r1".to_string()), "alice".to_string());
    let history = vec![ChatLogEntry { sender: "alice".to_string(), content: "earlier".to_string(), timestamp: 1, context: String::new() }];
    let turn = alice.begin_turn(&event, history).unwrap();
    assert_eq!(turn.messages.len(), 2);
    assert_eq!(turn.messages[0].role, "assistant");
    assert_eq!(turn.messages[1].role, "user");
    assert_eq!(turn.messages[1].content.as_deref(), Some("hello"));
    assert_eq!(turn.incoming.sender, "user");

    let added = vec![ChatMessage { role: "assistant".to_string(), content: Some("hi!".to_string()), tool_calls: None, tool_call_id: None }];
    let (entries, reply) = alice.finish_turn(&event, &added, 99);
    assert_eq!(entries.len(), 1);
    assert_eq!(entries[0].timestamp, 99);
    let reply = reply.unwrap();
    assert_eq!((reply.sender.as_str(), reply.content.as_str()), ("alice", "hi!"));
    assert_eq!(reply.request_id.as_deref(), Some("r1"));

    let for_bob = BusEvent::targeted_message("user".to_string(), "x".to_string(), None, "bob".to_string());
    assert!(alice.begin_turn(&for_bob, vec![]).is_none());
    let (_, none) = alice.finish_turn(&event, &vec![], 1);
    assert!(none.is_none());
}

#[test]
fn database_urls_and_new_messages() {
    assert_eq!(db_file_of_url("sqlite:///b/s.sqlite").unwrap(), "/b/s.sqlite");
    assert_eq!(db_file_of_url("/b/s.sqlite").unwrap_err(), "Invalid session db_url: /b/s.sqlite");
    let m = Message { id: -1, timestamp: 0, content: String::new(), role: "user".to_string(), tag: None };
    assert!(check_unsaved(&m).is_ok());
    let saved = Message { id: 3, ..m };
    assert_eq!(check_unsaved(&saved).unwrap_err(), "msg.id should == -1");
}
