//! The decisions of the interactive configuration wizard: which providers it
//! offers, what it preselects and proposes, how it asks for the key, and what
//! it makes of the answers. The questions themselves are put by the terminal.
use vstd::prelude::*;

use crate::config::{mask_key, mask_spec, Config, ProviderDef, ProviderTable};
use crate::text::{owned, push_str};

verus! {

/// The display name of provider `id`: its name, or the id itself where the
/// table has no such provider.
pub open spec fn display_name(m: Map<Seq<char>, ProviderDef>, id: Seq<char>) -> Seq<char> {
    if m.contains_key(id) {
        m[id].name@
    } else {
        id
    }
}

/// The API address of provider `id`, if the table has it.
pub open spec fn url_of(m: Map<Seq<char>, ProviderDef>, id: Seq<char>) -> Option<Seq<char>> {
    if m.contains_key(id) {
        Some(m[id].api_url@)
    } else {
        None
    }
}

/// The default model of provider `id`, if the table has it.
pub open spec fn model_of(m: Map<Seq<char>, ProviderDef>, id: Seq<char>) -> Option<Seq<char>> {
    if m.contains_key(id) {
        Some(m[id].default_model@)
    } else {
        None
    }
}

/// The provider menu: the display name of each provider of `ids`, in order,
/// then `Custom`.
pub fn menu_items(table: &ProviderTable, ids: &Vec<String>) -> (r: Vec<String>)
    requires
        table.wf(),
    ensures
        r@.len() == ids@.len() + 1,
        forall|i: int| 0 <= i < ids@.len() ==> (#[trigger] r@[i])@ == display_name(table@, ids@[i]@),
        r@[ids@.len() as int]@ == "Custom"@,
{
    let mut r: Vec<String> = Vec::new();
    let mut k: usize = 0;
    while k < ids.len()
        invariant
            table.wf(),
            k <= ids@.len(),
            r@.len() == k,
            forall|i: int| 0 <= i < k ==> (#[trigger] r@[i])@ == display_name(table@, ids@[i]@),
        decreases ids.len() - k,
    {
        let item = match table.provider_name(ids[k].as_str()) {
            Some(n) => n,
            None => ids[k].clone(),
        };
        r.push(item);
        k = k + 1;
    }
    r.push(owned("Custom"));
    r
}

/// The index in `ids` of the first provider whose address is `url`, or the
/// number of providers where none has it.
fn first_with_url(table: &ProviderTable, ids: &Vec<String>, url: &String) -> (r: usize)
    requires
        table.wf(),
    ensures
        r <= ids@.len(),
        r < ids@.len() ==> url_of(table@, ids@[r as int]@) == Some(url@),
        forall|j: int| 0 <= j < r ==> url_of(table@, #[trigger] ids@[j]@) != Some(url@),
{
    let mut k: usize = 0;
    while k < ids.len()
        invariant
            table.wf(),
            k <= ids@.len(),
            forall|j: int| 0 <= j < k ==> url_of(table@, #[trigger] ids@[j]@) != Some(url@),
        decreases ids.len() - k,
    {
        match table.provider_url(ids[k].as_str()) {
            Some(u) => {
                if u == *url {
                    return k;
                }
            },
            None => {},
        }
        k = k + 1;
    }
    k
}

/// The menu entry selected at first: the first provider of `ids` whose
/// address is the one of the existing configuration; `Custom`, the entry after
/// the providers, where there is none or no existing configuration.
pub fn default_selection(table: &ProviderTable, ids: &Vec<String>, existing: Option<&Config>) -> (r:
    usize)
    requires
        table.wf(),
    ensures
        r <= ids@.len(),
        match existing {
            Some(c) => {
                &&& r < ids@.len() ==> url_of(table@, ids@[r as int]@) == Some(c.api_url@)
                &&& forall|j: int| 0 <= j < r ==> url_of(table@, #[trigger] ids@[j]@) != Some(c.api_url@)
            },
            None => r == ids@.len(),
        },
{
    match existing {
        None => ids.len(),
        Some(c) => first_with_url(table, ids, &c.api_url),
    }
}

/// How the wizard asks for the key: the question, and the key that an empty
/// answer keeps.
#[derive(Debug)]
pub struct KeyPrompt {
    pub prompt: String,
    pub existing: Option<String>,
}

/// For the built-in provider at `selection`: its API address (empty where the
/// table has none) and the question `<name> API Key`, which offers the existing
/// key where the existing configuration uses that address.
pub fn builtin_choice(
    table: &ProviderTable,
    ids: &Vec<String>,
    selection: usize,
    existing: Option<&Config>,
) -> (r: (String, KeyPrompt))
    requires
        table.wf(),
        selection < ids@.len(),
    ensures
        r.0@ == match url_of(table@, ids@[selection as int]@) {
            Some(u) => u,
            None => Seq::<char>::empty(),
        },
        r.1.prompt@ == display_name(table@, ids@[selection as int]@) + " API Key"@,
        match existing {
            Some(c) => if c.api_url@ == r.0@ {
                r.1.existing == Some(c.api_key)
            } else {
                r.1.existing is None
            },
            None => r.1.existing is None,
        },
{
    let id = ids[selection].as_str();
    let name = match table.provider_name(id) {
        Some(n) => n,
        None => owned(id),
    };
    let url = match table.provider_url(id) {
        Some(u) => u,
        None => String::new(),
    };
    let mut prompt = name;
    push_str(&mut prompt, " API Key");
    let kept = match existing {
        Some(c) => {
            if c.api_url == url {
                Some(c.api_key.clone())
            } else {
                None
            }
        },
        None => None,
    };
    (url, KeyPrompt { prompt, existing: kept })
}

/// For a custom provider: the address proposed (the existing one, else
/// OpenAI's) and the question `API Key`, which offers the existing key.
pub fn custom_choice(existing: Option<&Config>) -> (r: (String, KeyPrompt))
    ensures
        r.0@ == match existing {
            Some(c) => c.api_url@,
            None => "https://api.openai.com/v1"@,
        },
        r.1.prompt@ == "API Key"@,
        r.1.existing == match existing {
            Some(c) => Some(c.api_key),
            None => None::<String>,
        },
{
    match existing {
        Some(c) => (c.api_url.clone(), KeyPrompt { prompt: owned("API Key"), existing: Some(c.api_key.clone()) }),
        None => (owned("https://api.openai.com/v1"), KeyPrompt { prompt: owned("API Key"), existing: None }),
    }
}

/// The model proposed: the existing one, else the default model of the
/// built-in provider selected, else `gpt-4o`.
pub fn default_model(
    table: &ProviderTable,
    ids: &Vec<String>,
    selection: usize,
    existing: Option<&Config>,
) -> (r: String)
    requires
        table.wf(),
    ensures
        r@ == match existing {
            Some(c) => c.model@,
            None => if selection < ids@.len() {
                match model_of(table@, ids@[selection as int]@) {
                    Some(m) => m,
                    None => "gpt-4o"@,
                }
            } else {
                "gpt-4o"@
            },
        },
{
    match existing {
        Some(c) => c.model.clone(),
        None => {
            if selection < ids.len() {
                match table.provider_default_model(ids[selection].as_str()) {
                    Some(m) => m,
                    None => owned("gpt-4o"),
                }
            } else {
                owned("gpt-4o")
            }
        },
    }
}

/// Whether a key can be shown masked: its UTF-8 text fits in memory, and a
/// key of more than 8 bytes has character boundaries 4 bytes from either end.
pub open spec fn maskable(key: Seq<char>) -> bool {
    let b = vstd::utf8::encode_utf8(key);
    &&& b.len() <= usize::MAX
    &&& b.len() > 8 ==> vstd::utf8::is_char_boundary(b, 4) && vstd::utf8::is_char_boundary(
        b,
        b.len() - 4,
    )
}

/// The question shown for the key and whether an empty answer is allowed:
/// with a non-empty key to keep, the question, ` [current: `, the key masked
/// and `]`, and an empty answer keeps the key; otherwise the question alone,
/// and an answer is needed.
pub fn key_question(p: &KeyPrompt) -> (r: (String, bool))
    requires
        p.existing matches Some(k) ==> maskable(k@),
    ensures
        match p.existing {
            Some(k) => if k@.len() > 0 {
                r.0@ == p.prompt@ + " [current: "@ + mask_spec(vstd::utf8::encode_utf8(k@)) + "]"@
                    && r.1
            } else {
                r.0@ == p.prompt@ && !r.1
            },
            None => r.0@ == p.prompt@ && !r.1,
        },
{
    match &p.existing {
        Some(k) => {
            if k.as_str().is_empty() {
                (p.prompt.clone(), false)
            } else {
                let masked = mask_key(k.as_str());
                let mut q = p.prompt.clone();
                push_str(&mut q, " [current: ");
                push_str(&mut q, masked.as_str());
                push_str(&mut q, "]");
                (q, true)
            }
        },
        None => (p.prompt.clone(), false),
    }
}

/// The key the wizard settles on: the one kept where it is not empty and the
/// answer is; the answer otherwise.
pub fn chosen_key(p: KeyPrompt, answer: String) -> (r: String)
    ensures
        match p.existing {
            Some(k) => if k@.len() > 0 && answer@.len() == 0 {
                r == k
            } else {
                r == answer
            },
            None => r == answer,
        },
{
    match p.existing {
        Some(k) => {
            if !k.as_str().is_empty() && answer.as_str().is_empty() {
                k
            } else {
                answer
            }
        },
        None => answer,
    }
}

/// The user declined to save the configuration.
#[derive(Debug, PartialEq, Eq, Structural)]
pub enum WizardError {
    Cancelled,
}

impl WizardError {
    /// The error message.
    pub fn message(&self) -> (r: String)
        ensures
            r@ == "Configuration cancelled by user"@,
    {
        owned("Configuration cancelled by user")
    }
}

/// The configuration made of the answers, kept only where the user confirms it.
pub fn finish(api_url: String, api_key: String, model: String, confirmed: bool) -> (r: Result<
    Config,
    WizardError,
>)
    ensures
        confirmed ==> r == Ok::<Config, WizardError>(Config { api_url, api_key, model }),
        !confirmed ==> r == Err::<Config, WizardError>(WizardError::Cancelled),
{
    if confirmed {
        Ok(Config { api_url, api_key, model })
    } else {
        Err(WizardError::Cancelled)
    }
}

} // verus!
