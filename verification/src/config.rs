//! Layered configuration: defaults, then the user-level file, then the
//! project-level file, then the `DEEPSEEK_API_KEY` environment variable,
//! each layer overriding the ones before it.
//!
//! Reading and writing the files is done by the caller; this module holds
//! the values and the rules that combine them.

use crate::strmap::{lookup, map_of, opt_view, StrMap};
use crate::text::{find_char, prefix_to, str_eq, to_chars};
use vstd::prelude::*;

verus! {

broadcast use vstd::string::group_string_axioms;

/// A set of configuration values, keyed by setting name.
pub struct Config {
    pub values: StrMap,
}

impl View for Config {
    type V = Map<Seq<char>, Seq<char>>;

    open spec fn view(&self) -> Map<Seq<char>, Seq<char>> {
        self.values@
    }
}

/// The default settings.
pub open spec fn default_map() -> Map<Seq<char>, Seq<char>> {
    Map::empty().insert("model"@, "deepseek-v4-flash"@).insert(
        "base_url"@,
        "https://api.deepseek.com"@,
    ).insert("verbose"@, "false"@).insert("show_thinking"@, "true"@).insert(
        "debug"@,
        "false"@,
    ).insert("language"@, "auto"@)
}

/// `base` with every setting of `over` written over it.
pub open spec fn overlay(
    base: Map<Seq<char>, Seq<char>>,
    over: Option<Map<Seq<char>, Seq<char>>>,
) -> Map<Seq<char>, Seq<char>> {
    match over {
        Some(m) => base.union_prefer_right(m),
        None => base,
    }
}

/// The configuration in force: the defaults, overridden by the user-level
/// settings, overridden by the project-level settings, with the API key
/// from the environment above all.
pub open spec fn layered_spec(
    global: Option<Map<Seq<char>, Seq<char>>>,
    local: Option<Map<Seq<char>, Seq<char>>>,
    env_api_key: Option<Seq<char>>,
) -> Map<Seq<char>, Seq<char>> {
    let m = overlay(overlay(default_map(), global), local);
    match env_api_key {
        Some(k) => m.insert("api_key"@, k),
        None => m,
    }
}

/// The language code of a locale name: the part before the first `.`, and
/// of that the part before the first `_` (`zh_CN.UTF-8` gives `zh`).
pub open spec fn locale_language_spec(locale: Seq<char>) -> Seq<char> {
    let a = locale.take(find_char(locale, '.'));
    a.take(find_char(a, '_'))
}

/// The language for generated text: the `language` setting, unless it is
/// absent or `auto`; then the language of the `LANG` locale, or `zh` when
/// that gives none.
pub open spec fn resolve_language_spec(
    setting: Option<Seq<char>>,
    lang_env: Option<Seq<char>>,
) -> Seq<char> {
    match setting {
        Some(v) if v != "auto"@ => v,
        _ => match lang_env {
            Some(l) => if locale_language_spec(l).len() > 0 {
                locale_language_spec(l)
            } else {
                "zh"@
            },
            None => "zh"@,
        },
    }
}

/// The value a layer gives a setting, if the layer exists and sets it.
pub open spec fn layer_value(layer: Option<Map<Seq<char>, Seq<char>>>, key: Seq<char>) -> Option<
    Seq<char>,
> {
    match layer {
        Some(m) => lookup(m, key),
        None => None,
    }
}

/// Configuration precedence: the value in force of a setting comes from
/// the highest layer that sets it: the `DEEPSEEK_API_KEY` environment
/// variable (for `api_key`), then the project-level file, then the
/// user-level file, then the defaults.
pub proof fn law_config_precedence(
    global: Option<Map<Seq<char>, Seq<char>>>,
    local: Option<Map<Seq<char>, Seq<char>>>,
    env_api_key: Option<Seq<char>>,
    key: Seq<char>,
)
    ensures
        lookup(layered_spec(global, local, env_api_key), key) == (if key == "api_key"@
            && env_api_key is Some {
            env_api_key
        } else if layer_value(local, key) is Some {
            layer_value(local, key)
        } else if layer_value(global, key) is Some {
            layer_value(global, key)
        } else {
            lookup(default_map(), key)
        }),
{
}

/// Reading a setting after writing it gives the written value; every other
/// setting keeps its value.
pub proof fn law_get_after_set(
    m: Map<Seq<char>, Seq<char>>,
    key: Seq<char>,
    value: Seq<char>,
    other: Seq<char>,
)
    ensures
        lookup(m.insert(key, value), key) == Some(value),
        other != key ==> lookup(m.insert(key, value), other) == lookup(m, other),
{
}

/// Why a configuration cannot be used.
#[derive(Debug, Clone, Copy, PartialEq, Eq, Structural)]
pub enum ConfigError {
    /// No `api_key` is set, in any file or in the environment.
    MissingApiKey,
}

/// The text that explains a configuration error.
pub open spec fn config_error_message_spec(e: ConfigError) -> Seq<char> {
    match e {
        ConfigError::MissingApiKey => "DeepSeek API key not configured. Run: jjit config set api_key <your-key>"@,
    }
}

impl ConfigError {
    /// The text that explains the error, naming the command that fixes it.
    pub fn message(&self) -> (s: String)
        ensures
            s@ == config_error_message_spec(*self),
    {
        match self {
            ConfigError::MissingApiKey => "DeepSeek API key not configured. Run: jjit config set api_key <your-key>".to_owned(),
        }
    }
}

/// `m` with the pairs of `e` inserted in order equals `m` overridden by `map_of(e)`.
proof fn lemma_union_map_of_push(
    m: Map<Seq<char>, Seq<char>>,
    e: Seq<(Seq<char>, Seq<char>)>,
    k: Seq<char>,
    v: Seq<char>,
)
    ensures
        m.union_prefer_right(map_of(e.push((k, v)))) == m.union_prefer_right(map_of(e)).insert(
            k,
            v,
        ),
{
    assert(e.push((k, v)).drop_last() =~= e);
    assert(m.union_prefer_right(map_of(e.push((k, v)))) =~= m.union_prefer_right(
        map_of(e),
    ).insert(k, v));
}

/// The language code of a locale name (`zh_CN.UTF-8` gives `zh`).
pub fn locale_language(locale: &str) -> (r: String)
    ensures
        r@ == locale_language_spec(locale@),
{
    let v = to_chars(locale);
    let mut i: usize = 0;
    while i < v.len() && v[i] != '.'
        invariant
            0 <= i <= v@.len(),
            v@ == locale@,
            forall|k: int| 0 <= k < i ==> v@[k] != '.',
        decreases v@.len() - i,
    {
        i = i + 1;
    }
    proof {
        crate::text::lemma_find_char_at(v@, '.', i as int);
    }
    let mut j: usize = 0;
    while j < i && v[j] != '_'
        invariant
            0 <= j <= i <= v@.len(),
            forall|k: int| 0 <= k < j ==> v@[k] != '_',
        decreases i - j,
    {
        j = j + 1;
    }
    proof {
        let a = v@.take(i as int);
        assert forall|k: int| 0 <= k < j implies a[k] != '_' by {
            assert(a[k] == v@[k]);
        }
        if j < i {
            assert(a[j as int] == v@[j as int]);
        }
        crate::text::lemma_find_char_at(a, '_', j as int);
        assert(a.take(j as int) =~= v@.take(j as int));
    }
    prefix_to(locale, j)
}

impl Default for Config {
    /// The default settings.
    fn default() -> (c: Config)
        ensures
            c@ == default_map(),
    {
        let mut values = StrMap::new();
        values.insert("model".to_owned(), "deepseek-v4-flash".to_owned());
        values.insert("base_url".to_owned(), "https://api.deepseek.com".to_owned());
        values.insert("verbose".to_owned(), "false".to_owned());
        values.insert("show_thinking".to_owned(), "true".to_owned());
        values.insert("debug".to_owned(), "false".to_owned());
        values.insert("language".to_owned(), "auto".to_owned());
        Config { values }
    }
}

impl Config {
    /// The configuration holding exactly the given pairs (later pairs
    /// override earlier ones with the same key).
    pub fn from_pairs(pairs: &Vec<(String, String)>) -> (c: Config)
        ensures
            c@ == map_of(crate::strmap::pair_views(pairs@)),
    {
        Config { values: StrMap::from_pairs(pairs) }
    }

    /// The value of a setting.
    pub fn get(&self, key: &str) -> (r: Option<String>)
        ensures
            opt_view(r) == lookup(self@, key@),
    {
        self.values.get(key)
    }

    /// Sets a setting, replacing any earlier value.
    pub fn set(&mut self, key: &str, value: &str)
        ensures
            final(self)@ == old(self)@.insert(key@, value@),
    {
        self.values.insert(key.to_owned(), value.to_owned());
    }

    /// Writes every setting of `other` over this configuration.
    pub fn overlay(&mut self, other: &Config)
        ensures
            final(self)@ == old(self)@.union_prefer_right(other@),
    {
        let entries = other.values.entries();
        let ghost pv = crate::strmap::pair_views(entries@);
        let ghost start = self@;
        let mut i: usize = 0;
        assert(start.union_prefer_right(map_of(pv.take(0))) =~= start);
        while i < entries.len()
            invariant
                0 <= i <= entries@.len(),
                pv == crate::strmap::pair_views(entries@),
                other@ == map_of(pv),
                self@ == start.union_prefer_right(map_of(pv.take(i as int))),
            decreases entries@.len() - i,
        {
            let k = entries[i].0.clone();
            let v = entries[i].1.clone();
            self.values.insert(k, v);
            proof {
                assert(pv.take(i + 1) =~= pv.take(i as int).push(pv[i as int]));
                lemma_union_map_of_push(start, pv.take(i as int), pv[i as int].0, pv[i as int].1);
            }
            i = i + 1;
        }
        assert(pv.take(entries@.len() as int) =~= pv);
    }

    /// The configuration in force, from the settings of the user-level file
    /// and of the project-level file, if they exist, and the API key in the
    /// environment, if set.
    pub fn load(global: Option<&Config>, local: Option<&Config>, env_api_key: Option<&str>) -> (c:
        Config)
        ensures
            c@ == layered_spec(
                match global {
                    Some(g) => Some(g@),
                    None => None,
                },
                match local {
                    Some(l) => Some(l@),
                    None => None,
                },
                match env_api_key {
                    Some(k) => Some(k@),
                    None => None,
                },
            ),
    {
        let mut config = Config::default();
        if let Some(g) = global {
            config.overlay(g);
        }
        if let Some(l) = local {
            config.overlay(l);
        }
        if let Some(k) = env_api_key {
            config.set("api_key", k);
        }
        config
    }

    /// The path of the project-level configuration file.
    pub fn local_config_path() -> (p: String)
        ensures
            p@ == ".jjit/config.toml"@,
    {
        ".jjit/config.toml".to_owned()
    }

    /// The API key, which every request to the model needs.
    pub fn ensure_api_key(&self) -> (r: Result<String, ConfigError>)
        ensures
            match r {
                Ok(k) => lookup(self@, "api_key"@) == Some(k@),
                Err(e) => lookup(self@, "api_key"@) is None && e == ConfigError::MissingApiKey,
            },
    {
        match self.get("api_key") {
            Some(k) => Ok(k),
            None => Err(ConfigError::MissingApiKey),
        }
    }

    /// The language for generated text, given the `LANG` environment value.
    pub fn resolve_language(&self, lang_env: Option<&str>) -> (r: String)
        ensures
            r@ == resolve_language_spec(
                lookup(self@, "language"@),
                match lang_env {
                    Some(l) => Some(l@),
                    None => None,
                },
            ),
    {
        if let Some(v) = self.get("language") {
            if !str_eq(v.as_str(), "auto") {
                return v;
            }
        }
        match lang_env {
            Some(l) => {
                let code = locale_language(l);
                if code.as_str().is_empty() {
                    "zh".to_owned()
                } else {
                    code
                }
            },
            None => "zh".to_owned(),
        }
    }
}

} // verus!
