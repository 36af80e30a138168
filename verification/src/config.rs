//! The application configuration, the built-in provider table, and the
//! masking of API keys for display.
use vstd::prelude::*;

use crate::keyed::{has_key, KeyedVec};
use vstd::string::StringSliceAdditionalSpecFns;
use crate::llm::clone_opt;
use crate::text::{owned, path_join, path_join_spec, push_char, push_str};

verus! {

/// The configuration: where the model API is, the key, and the model.
#[derive(Debug)]
pub struct Config {
    pub api_url: String,
    pub api_key: String,
    pub model: String,
}

impl Clone for Config {
    fn clone(&self) -> (r: Self)
        ensures
            r == *self,
    {
        Config {
            api_url: self.api_url.clone(),
            api_key: self.api_key.clone(),
            model: self.model.clone(),
        }
    }
}

/// The name of the configuration file.
pub open spec fn config_filename() -> Seq<char> {
    seq!['c', 'o', 'n', 'f', 'i', 'g', '.', 't', 'o', 'm', 'l']
}

/// The configuration in use and the file it is read from and written to.
#[derive(Debug)]
pub struct ConfigStore {
    pub config_file: String,
    pub inner: Option<Config>,
}

impl ConfigStore {
    /// The configuration held.
    pub open spec fn current(&self) -> Option<Config> {
        self.inner
    }

    /// A store for `config.toml` under `base_dir`, holding no configuration yet.
    pub fn new(base_dir: &str) -> (r: Self)
        ensures
            r.config_file@ == path_join_spec(base_dir@, config_filename()),
            r.current() is None,
    {
        let name = "config.toml";
        proof {
            reveal_strlit("config.toml");
            assert(name@ =~= config_filename());
        }
        ConfigStore { config_file: path_join(base_dir, name), inner: None }
    }

    /// Holds `cfg` as the configuration.
    pub fn set(&mut self, cfg: Config)
        ensures
            final(self).current() == Some(cfg),
            final(self).config_file == old(self).config_file,
    {
        self.inner = Some(cfg);
    }

    /// A copy of the configuration held.
    pub fn get(&self) -> (r: Option<Config>)
        ensures
            r == self.current(),
    {
        match &self.inner {
            Some(c) => Some(c.clone()),
            None => None,
        }
    }

    /// Records how writing `cfg` to the configuration file went: once it is
    /// written, `cfg` is the configuration held; where writing failed, the
    /// store stays as it was and the error is passed on.
    pub fn record_save(&mut self, cfg: Config, written: Result<(), String>) -> (r: Result<
        (),
        String,
    >)
        ensures
            written is Ok ==> r is Ok && final(self).current() == Some(cfg),
            written matches Err(e) ==> r == Err::<(), String>(e) && final(self).current() == old(
                self,
            ).current(),
            final(self).config_file == old(self).config_file,
    {
        match written {
            Ok(()) => {
                self.inner = Some(cfg);
                Ok(())
            },
            Err(e) => Err(e),
        }
    }

    /// The configuration to write back: the one held, or [`ConfigError::NotLoaded`]
    /// where none has been loaded or set.
    pub fn loaded(&self) -> (r: Result<Config, ConfigError>)
        ensures
            r matches Ok(c) ==> self.current() == Some(c),
            r matches Err(e) ==> self.current() is None && e is NotLoaded,
    {
        match &self.inner {
            Some(c) => Ok(c.clone()),
            None => Err(ConfigError::NotLoaded),
        }
    }

    /// The error for a configuration file that does not exist.
    pub fn not_found(&self) -> (r: ConfigError)
        ensures
            r matches ConfigError::NotFound { path } && path@ == self.config_file@,
    {
        ConfigError::NotFound { path: self.config_file.clone() }
    }
}

/// Why the configuration could not be had.
#[derive(Debug)]
pub enum ConfigError {
    /// The configuration file does not exist.
    NotFound { path: String },
    /// The configuration is asked for before it was loaded.
    NotLoaded,
}

/// The text before the path in the message of [`ConfigError::NotFound`].
pub open spec fn not_found_prefix() -> Seq<char> {
    seq![
        'c', 'o', 'n', 'f', 'i', 'g', '.', 't', 'o', 'm', 'l', ' ', 'n', 'o', 't', ' ', 'f', 'o',
        'u', 'n', 'd', ' ', 'a', 't', ' ',
    ]
}

/// The message of [`ConfigError::NotLoaded`].
pub open spec fn not_loaded_text() -> Seq<char> {
    seq![
        'S', 'h', 'o', 'u', 'l', 'd', ' ', 'c', 'o', 'n', 'f', 'i', 'g', ':', ':', 'l', 'o', 'a',
        'd', '(', ')', ' ', 'f', 'i', 'r', 's', 't',
    ]
}

impl ConfigError {
    /// The message shown for the error.
    pub fn message(&self) -> (r: String)
        ensures
            self matches ConfigError::NotFound { path } ==> r@ == not_found_prefix() + path@,
            self is NotLoaded ==> r@ == not_loaded_text(),
    {
        match self {
            ConfigError::NotFound { path } => {
                let p = "config.toml not found at ";
                let mut r = owned(p);
                push_str(&mut r, path.as_str());
                proof {
                    reveal_strlit("config.toml not found at ");
                    assert(p@ =~= not_found_prefix());
                }
                r
            },
            ConfigError::NotLoaded => {
                let t = "Should config::load() first";
                proof {
                    reveal_strlit("Should config::load() first");
                    assert(t@ =~= not_loaded_text());
                }
                owned(t)
            },
        }
    }
}

// ───────────────────────── the base directory ─────────────────────────

/// The user's home directory as the system reports it (`dirs::home_dir`),
/// where it knows one. It depends on the environment and the machine, so
/// nothing is stated of the result.
#[verifier::external_body]
fn home_dir() -> (r: Option<String>) {
    match dirs::home_dir() {
        Some(p) => Some(p.to_string_lossy().into_owned()),
        None => None,
    }
}

/// The name of the application's directory under the home directory.
pub open spec fn nota_dir_name() -> Seq<char> {
    seq!['.', 'n', 'o', 't', 'a']
}

/// The application's directory under the home directory `home`.
pub fn base_dir_in(home: &str) -> (r: String)
    ensures
        r@ == path_join_spec(home@, nota_dir_name()),
{
    let d = ".nota";
    proof {
        reveal_strlit(".nota");
        assert(d@ =~= nota_dir_name());
    }
    path_join(home, d)
}

/// The application's directory, `.nota` under the user's home directory, or
/// `None` where the system knows no home directory.
pub fn base_dir() -> (r: Option<String>)
    ensures
        r matches Some(s) ==> exists|h: Seq<char>| s@ == path_join_spec(h, nota_dir_name()),
{
    match home_dir() {
        Some(h) => Some(base_dir_in(h.as_str())),
        None => None,
    }
}

/// After a configuration is set, or saved with the file written, reading it
/// gives that configuration, and writing it back takes that configuration;
/// the file stays the same.
pub proof fn set_then_get(store: ConfigStore, cfg: Config)
    ensures
        (ConfigStore { inner: Some(cfg), ..store }).current() == Some(cfg),
        (ConfigStore { inner: Some(cfg), ..store }).config_file == store.config_file,
{
}

/// A model provider offered by the configuration wizard.
#[derive(Debug)]
pub struct ProviderDef {
    pub id: String,
    pub name: String,
    pub api_url: String,
    pub default_model: String,
}

/// The built-in providers, by id.
pub struct ProviderTable {
    providers: KeyedVec<ProviderDef>,
}

/// The table after adding `defs` in order; a later provider replaces an
/// earlier one of the same id.
pub open spec fn providers_spec(defs: Seq<ProviderDef>) -> Map<Seq<char>, ProviderDef>
    decreases defs.len(),
{
    if defs.len() == 0 {
        Map::empty()
    } else {
        providers_spec(defs.drop_last()).insert(defs.last().id@, defs.last())
    }
}

impl View for ProviderTable {
    type V = Map<Seq<char>, ProviderDef>;

    closed spec fn view(&self) -> Map<Seq<char>, ProviderDef> {
        self.providers@
    }
}

impl ProviderTable {
    pub closed spec fn wf(&self) -> bool {
        self.providers.wf()
    }

    /// The table of the providers `defs`, by id.
    pub fn from_defs(defs: Vec<ProviderDef>) -> (r: Self)
        ensures
            r.wf(),
            r@ == providers_spec(defs@),
    {
        let ghost all = defs@;
        let mut defs = defs;
        let mut t = KeyedVec::new();
        assert(all.subrange(0, 0) =~= Seq::<ProviderDef>::empty());
        assert(defs@ =~= all.subrange(0, all.len() as int));
        while defs.len() > 0
            invariant
                t.wf(),
                defs@.len() <= all.len(),
                defs@ == all.subrange(all.len() - defs@.len(), all.len() as int),
                t@ == providers_spec(all.subrange(0, all.len() - defs@.len())),
            decreases defs.len(),
        {
            let ghost j = all.len() - defs@.len();
            let d = defs.remove(0);
            proof {
                let pre = all.subrange(0, j + 1);
                assert(pre.drop_last() =~= all.subrange(0, j));
                assert(pre.last() == d);
                assert(defs@ =~= all.subrange(j + 1, all.len() as int));
            }
            t.insert(d.id.clone(), d);
        }
        assert(all.subrange(0, all.len() as int) =~= all);
        ProviderTable { providers: t }
    }

    /// The ids of the providers, once each.
    pub fn provider_ids(&self) -> (r: Vec<String>)
        requires
            self.wf(),
        ensures
            forall|i: int, j: int|
                0 <= i < r@.len() && 0 <= j < r@.len() && i != j ==> (#[trigger] r@[i])@ != (
                #[trigger] r@[j])@,
            forall|i: int| 0 <= i < r@.len() ==> self@.contains_key((#[trigger] r@[i])@),
            forall|k: Seq<char>|
                #[trigger] self@.contains_key(k) ==> exists|i: int| 0 <= i < r@.len() && r@[i]@ == k,
    {
        let entries = self.providers.entries();
        let mut r: Vec<String> = Vec::new();
        let mut i: usize = 0;
        while i < entries.len()
            invariant
                i <= entries@.len(),
                r@.len() == i,
                forall|j: int| 0 <= j < i ==> (#[trigger] r@[j])@ == entries@[j].0@,
            decreases entries.len() - i,
        {
            r.push(entries[i].0.clone());
            i = i + 1;
        }
        proof {
            assert forall|k: Seq<char>| #[trigger] self@.contains_key(k) implies exists|i: int|
                0 <= i < r@.len() && r@[i]@ == k by {
                assert(has_key(entries@, k));
                let j = choose|j: int| 0 <= j < entries@.len() && (#[trigger] entries@[j]).0@ == k;
                assert(r@[j]@ == k);
            }
        }
        r
    }

    /// The display name of provider `id`.
    pub fn provider_name(&self, id: &str) -> (r: Option<String>)
        requires
            self.wf(),
        ensures
            r matches Some(s) ==> self@.contains_key(id@) && s@ == self@[id@].name@,
            r is None ==> !self@.contains_key(id@),
    {
        match self.providers.get(id) {
            Some(d) => Some(d.name.clone()),
            None => None,
        }
    }

    /// The API address of provider `id`.
    pub fn provider_url(&self, id: &str) -> (r: Option<String>)
        requires
            self.wf(),
        ensures
            r matches Some(s) ==> self@.contains_key(id@) && s@ == self@[id@].api_url@,
            r is None ==> !self@.contains_key(id@),
    {
        match self.providers.get(id) {
            Some(d) => Some(d.api_url.clone()),
            None => None,
        }
    }

    /// The default model of provider `id`.
    pub fn provider_default_model(&self, id: &str) -> (r: Option<String>)
        requires
            self.wf(),
        ensures
            r matches Some(s) ==> self@.contains_key(id@) && s@ == self@[id@].default_model@,
            r is None ==> !self@.contains_key(id@),
    {
        match self.providers.get(id) {
            Some(d) => Some(d.default_model.clone()),
            None => None,
        }
    }
}

// ───────────────────────── masking keys ─────────────────────────

/// The masked display of a key whose UTF-8 text is `bytes`: a key of at most 8
/// bytes becomes one `*` per byte; a longer one keeps its first 4 and last 4
/// bytes around `****`.
pub open spec fn mask_spec(bytes: Seq<u8>) -> Seq<char> {
    if bytes.len() <= 8 {
        Seq::new(bytes.len(), |i: int| '*')
    } else {
        vstd::utf8::decode_utf8(bytes.subrange(0, 4)) + seq!['*', '*', '*', '*']
            + vstd::utf8::decode_utf8(bytes.subrange(bytes.len() - 4, bytes.len() as int))
    }
}

/// Each character takes one to four bytes in UTF-8.
proof fn lemma_encoded_len(chars: Seq<char>)
    ensures
        chars.len() <= vstd::utf8::encode_utf8(chars).len() <= 4 * chars.len(),
    decreases chars.len(),
{
    if chars.len() > 0 {
        lemma_encoded_len(chars.drop_first());
    }
}

/// A masked long key shows the key itself at both ends: for a key of more
/// than 8 bytes, the mask is a prefix of the key of one to four characters,
/// then `****`, then a suffix of the key of one to four characters. The
/// returned pair gives the two lengths.
pub proof fn mask_shows_key_ends(key: Seq<char>) -> (pq: (int, int))
    requires
        vstd::utf8::encode_utf8(key).len() > 8,
        vstd::utf8::is_char_boundary(vstd::utf8::encode_utf8(key), 4),
        vstd::utf8::is_char_boundary(
            vstd::utf8::encode_utf8(key),
            vstd::utf8::encode_utf8(key).len() - 4,
        ),
    ensures
        1 <= pq.0 <= 4,
        1 <= pq.1 <= 4,
        pq.0 <= key.len(),
        pq.1 <= key.len(),
        mask_spec(vstd::utf8::encode_utf8(key)) == key.subrange(0, pq.0) + seq![
            '*',
            '*',
            '*',
            '*',
        ] + key.subrange(key.len() - pq.1, key.len() as int),
{
    let b = vstd::utf8::encode_utf8(key);
    let n = b.len() as int;
    vstd::utf8::encode_utf8_valid_utf8(key);
    vstd::utf8::encode_utf8_decode_utf8(key);
    let hb = b.subrange(0, 4);
    let tb = b.subrange(n - 4, n);
    let h = vstd::utf8::decode_utf8(hb);
    let t = vstd::utf8::decode_utf8(tb);
    vstd::utf8::valid_utf8_split(b, 4);
    vstd::utf8::valid_utf8_split(b, n - 4);
    vstd::utf8::decode_utf8_split(b, 4);
    vstd::utf8::decode_utf8_split(b, n - 4);
    vstd::utf8::decode_utf8_encode_utf8(hb);
    vstd::utf8::decode_utf8_encode_utf8(tb);
    lemma_encoded_len(h);
    lemma_encoded_len(t);
    assert(key =~= h + vstd::utf8::decode_utf8(b.subrange(4, n)));
    assert(key =~= vstd::utf8::decode_utf8(b.subrange(0, n - 4)) + t);
    assert(key.subrange(0, h.len() as int) =~= h);
    assert(key.subrange(key.len() - t.len(), key.len() as int) =~= t);
    (h.len() as int, t.len() as int)
}

/// The key masked for display (see [`mask_spec`]). A key longer than 8 bytes
/// must have character boundaries 4 bytes from either end, where it is cut.
pub fn mask_key(key: &str) -> (r: String)
    requires
        key.spec_bytes().len() <= usize::MAX,
        key.spec_bytes().len() > 8 ==> vstd::utf8::is_char_boundary(key.spec_bytes(), 4)
            && vstd::utf8::is_char_boundary(key.spec_bytes(), key.spec_bytes().len() - 4),
    ensures
        r@ == mask_spec(key.spec_bytes()),
        key.spec_bytes().len() <= 8 ==> r@.len() == key.spec_bytes().len() && forall|i: int|
            0 <= i < r@.len() ==> r@[i] == '*',
        key.spec_bytes().len() > 8 ==> r@ == vstd::utf8::decode_utf8(
            key.spec_bytes().subrange(0, 4),
        ) + seq!['*', '*', '*', '*'] + vstd::utf8::decode_utf8(
            key.spec_bytes().subrange(
                key.spec_bytes().len() - 4,
                key.spec_bytes().len() as int,
            ),
        ),
{
    let n = key.len();
    if n <= 8 {
        let mut r = String::new();
        let mut k: usize = 0;
        while k < n
            invariant
                k <= n,
                r@ == Seq::new(k as nat, |i: int| '*'),
            decreases n - k,
        {
            push_char(&mut r, '*');
            k = k + 1;
            assert(r@ =~= Seq::new(k as nat, |i: int| '*'));
        }
        r
    } else {
        proof {
            vstd::utf8::encode_utf8_valid_utf8(key@);
        }
        assert(n as int == key.spec_bytes().len());
        let (head, _) = key.split_at(4);
        assert(vstd::utf8::is_char_boundary(key.spec_bytes(), (n - 4) as int));
        let (_, tail) = key.split_at(n - 4);
        proof {
            vstd::utf8::encode_utf8_decode_utf8(head@);
            vstd::utf8::encode_utf8_decode_utf8(tail@);
        }
        let mut r = owned(head);
        push_str(&mut r, "****");
        push_str(&mut r, tail);
        proof {
            reveal_strlit("****");
            assert(head@ == vstd::utf8::decode_utf8(key.spec_bytes().subrange(0, 4)));
            assert(tail@ == vstd::utf8::decode_utf8(
                key.spec_bytes().subrange(n - 4, key.spec_bytes().len() as int),
            ));
            assert(r@ =~= mask_spec(key.spec_bytes()));
        }
        r
    }
}

} // verus!
