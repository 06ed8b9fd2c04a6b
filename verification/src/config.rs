//! Configuration management for the knowledge vault MCP server.
//!
//! The configuration comes from environment variables with sensible
//! defaults. Reading the environment is an [`EnvReader`]'s part; the rules
//! that turn the variables into a [`Config`] are [`Config::from_vars`].

use vstd::prelude::*;
use crate::paths::{join, path_join};
use crate::text::{
    chars_of, char_vecs, lowercase, split, split_chars, starts_with, starts_with_chars, string_of,
    strs, to_lowercase, trim, trim_chars,
};

verus! {

/// `dirs::home_dir`, as a string. What it returns depends on the
/// environment, so nothing is stated of it.
#[verifier::external_body]
fn home_dir() -> (r: Option<String>) {
    match dirs::home_dir() {
        Some(p) => Some(p.to_string_lossy().into_owned()),
        None => None,
    }
}

/// `dirs::cache_dir`, as a string. What it returns depends on the
/// environment, so nothing is stated of it.
#[verifier::external_body]
fn cache_dir() -> (r: Option<String>) {
    match dirs::cache_dir() {
        Some(p) => Some(p.to_string_lossy().into_owned()),
        None => None,
    }
}

/// The text views of an optional string.
pub open spec fn opt_view(o: Option<String>) -> Option<Seq<char>> {
    match o {
        Some(s) => Some(s@),
        None => None,
    }
}

/// `path` with a leading `~` replaced by the home directory, when there is one.
pub open spec fn expanded(path: Seq<char>, home: Option<Seq<char>>) -> Seq<char> {
    match home {
        Some(h) => if starts_with(path, "~/"@) {
            join(h, path.skip(2))
        } else if path == "~"@ {
            h
        } else {
            path
        },
        None => path,
    }
}

/// Expand tilde (~) in a path, given the home directory.
pub fn expand_tilde_with_home(path: &str, home: &Option<String>) -> (r: String)
    ensures
        r@ == expanded(path@, opt_view(*home)),
{
    let cs = chars_of(path);
    let prefix = chars_of("~/");
    let tilde = chars_of("~");
    proof {
        reveal_strlit("~/");
        reveal_strlit("~");
    }
    match home {
        Some(h) => {
            if starts_with_chars(cs.as_slice(), prefix.as_slice()) {
                let mut rest: Vec<char> = Vec::new();
                let mut i: usize = 2;
                while i < cs.len()
                    invariant
                        2 <= i <= cs@.len(),
                        rest@ == cs@.subrange(2, i as int),
                    decreases cs@.len() - i,
                {
                    rest.push(cs[i]);
                    i = i + 1;
                }
                let rel = string_of(rest.as_slice());
                path_join(h.as_str(), rel.as_str())
            } else if crate::text::eq_chars(cs.as_slice(), tilde.as_slice()) {
                h.clone()
            } else {
                path.to_owned()
            }
        },
        None => path.to_owned(),
    }
}

/// Expand tilde (~) in a path to the user's home directory.
pub fn expand_tilde(path: &str) -> (r: String)
    ensures
        exists|home: Option<Seq<char>>| r@ == #[trigger] expanded(path@, home),
        !starts_with(path@, "~/"@) && path@ != "~"@ ==> r@ == path@,
{
    let home = home_dir();
    let r = expand_tilde_with_home(path, &home);
    assert(r@ == expanded(path@, opt_view(home)));
    r
}

/// Default content cache size (number of notes to cache).
pub const DEFAULT_CACHE_SIZE: usize = 500;

/// Default debounce duration for file watcher in milliseconds.
pub const DEFAULT_WATCHER_DEBOUNCE_MS: u64 = 500;

/// Default maximum content characters for embedding.
/// 2000 chars (~400 words) provides good semantic context for embeddings.
pub const DEFAULT_EMBEDDING_MAX_CHARS: usize = 2000;

/// Default keywords that indicate potentially sensitive content.
pub open spec fn default_keywords() -> Seq<Seq<char>> {
    seq!["salary"@]
}

/// Default keywords that indicate potentially sensitive content.
pub fn default_sensitive_keywords() -> (r: Vec<String>)
    ensures
        strs(r@) == default_keywords(),
{
    let mut r: Vec<String> = Vec::new();
    r.push("salary".to_owned());
    assert(strs(r@) =~= default_keywords());
    r
}

/// The cache directory under the system cache directory (or `.`).
pub open spec fn default_cache_dir(system: Option<Seq<char>>) -> Seq<char> {
    match system {
        Some(d) => join(d, "knowledge-mcp"@),
        None => join("."@, "knowledge-mcp"@),
    }
}

/// The value of decimal digits.
pub open spec fn digits_value(s: Seq<char>) -> nat
    decreases s.len(),
{
    if s.len() == 0 {
        0
    } else {
        digits_value(s.drop_last()) * 10 + ((s.last() as u32) - 48) as nat
    }
}

/// Whether every character is an ASCII digit.
pub open spec fn all_digits(s: Seq<char>) -> bool {
    forall|i: int| 0 <= i < s.len() ==> '0' <= #[trigger] s[i] && s[i] <= '9'
}

/// What `str::parse` gives for an unsigned integer type with maximum `max`:
/// an optional `+`, then one or more digits, of value at most `max`.
pub open spec fn parse_unsigned(s: Seq<char>, max: nat) -> Option<nat> {
    let d = if s.len() > 0 && s[0] == '+' {
        s.drop_first()
    } else {
        s
    };
    if d.len() == 0 || !all_digits(d) || digits_value(d) > max {
        None
    } else {
        Some(digits_value(d))
    }
}

/// `str::parse` for an unsigned integer of at most `max`.
pub fn parse_unsigned_text(s: &str, max: u64) -> (r: Option<u64>)
    ensures
        match r {
            Some(v) => parse_unsigned(s@, max as nat) == Some(v as nat),
            None => parse_unsigned(s@, max as nat) is None,
        },
{
    let cs = chars_of(s);
    let start: usize = if cs.len() > 0 && cs[0] == '+' {
        1
    } else {
        0
    };
    let ghost d = if s@.len() > 0 && s@[0] == '+' {
        s@.drop_first()
    } else {
        s@
    };
    assert(d == cs@.subrange(start as int, cs@.len() as int));
    if start == cs.len() {
        return None;
    }
    let mut v: u64 = 0;
    let mut i: usize = start;
    while i < cs.len()
        invariant
            start <= i <= cs@.len(),
            cs@ == s@,
            d == (if s@.len() > 0 && s@[0] == '+' {
                s@.drop_first()
            } else {
                s@
            }),
            d == cs@.subrange(start as int, cs@.len() as int),
            all_digits(cs@.subrange(start as int, i as int)),
            v as nat == digits_value(cs@.subrange(start as int, i as int)),
            v <= max,
        decreases cs@.len() - i,
    {
        let c = cs[i];
        assert(cs@.subrange(start as int, i + 1).drop_last() == cs@.subrange(start as int, i as int));
        if c < '0' || c > '9' {
            assert(!all_digits(d)) by {
                assert(cs@[i as int] == c);
                assert(d[i - start] == cs@[i as int]);
            }
            return None;
        }
        let digit: u64 = ((c as u32) - 48) as u64;
        if digit > max || v > (max - digit) / 10 {
            proof {
                let next = cs@.subrange(start as int, i + 1);
                assert(next.drop_last() == cs@.subrange(start as int, i as int));
                assert(next.last() == c);
                assert(digits_value(next) == v * 10 + digit);
                assert(d.subrange(0, (i + 1 - start) as int) == next);
                if digit <= max {
                    assert(v * 10 + digit > max) by (nonlinear_arith)
                        requires
                            v > (max - digit) / 10,
                            digit <= max,
                    ;
                }
                assert(!all_digits(d) || digits_value(d) > max) by {
                    if all_digits(d) {
                        assert(d.subrange(0, d.len() as int) == d);
                        lemma_digits_prefix_grows(d, (i + 1 - start) as int, d.len() as int);
                    }
                }
            }
            return None;
        }
        assert(v * 10 + digit <= max) by (nonlinear_arith)
            requires
                v <= (max - digit) / 10,
                digit <= max,
        ;
        v = v * 10 + digit;
        proof {
            let next = cs@.subrange(start as int, i + 1);
            assert(next.drop_last() == cs@.subrange(start as int, i as int));
            assert(next.last() == c);
            assert forall|k: int| 0 <= k < next.len() implies '0' <= #[trigger] next[k] && next[k] <= '9' by {
                if k < next.len() - 1 {
                    assert(next[k] == cs@.subrange(start as int, i as int)[k]);
                }
            }
        }
        i = i + 1;
    }
    assert(cs@.subrange(start as int, cs@.len() as int) == d);
    Some(v)
}

/// A longer prefix of digits has no smaller value.
proof fn lemma_digits_prefix_grows(d: Seq<char>, a: int, b: int)
    requires
        0 <= a <= b <= d.len(),
        all_digits(d.subrange(0, b)),
    ensures
        digits_value(d.subrange(0, a)) <= digits_value(d.subrange(0, b)),
    decreases b - a,
{
    if a < b {
        assert(d.subrange(0, b).drop_last() == d.subrange(0, b - 1));
        assert(all_digits(d.subrange(0, b - 1))) by {
            assert forall|i: int| 0 <= i < b - 1 implies '0' <= #[trigger] d.subrange(0, b - 1)[i]
                && d.subrange(0, b - 1)[i] <= '9' by {
                assert(d.subrange(0, b - 1)[i] == d.subrange(0, b)[i]);
            }
        }
        lemma_digits_prefix_grows(d, a, b - 1);
    }
}

/// The keywords of a comma-separated list: each piece trimmed and
/// lowercased, empty ones left out.
pub open spec fn keywords_of(pieces: Seq<Seq<char>>) -> Seq<Seq<char>>
    decreases pieces.len(),
{
    if pieces.len() == 0 {
        Seq::empty()
    } else {
        let rest = keywords_of(pieces.drop_last());
        let k = lowercase(trim(pieces.last()));
        if k.len() == 0 {
            rest
        } else {
            rest.push(k)
        }
    }
}

/// Every keyword of a list is non-empty.
pub proof fn lemma_keywords_nonempty(pieces: Seq<Seq<char>>)
    ensures
        forall|i: int| 0 <= i < keywords_of(pieces).len() ==> (#[trigger] keywords_of(pieces)[i]).len() > 0,
    decreases pieces.len(),
{
    if pieces.len() > 0 {
        lemma_keywords_nonempty(pieces.drop_last());
        let rest = keywords_of(pieces.drop_last());
        let k = lowercase(trim(pieces.last()));
        if k.len() > 0 {
            assert forall|i: int| 0 <= i < rest.push(k).len() implies (#[trigger] rest.push(k)[i]).len() > 0 by {
                if i < rest.len() {
                    assert(rest.push(k)[i] == rest[i]);
                }
            }
        }
    }
}

/// Parse a comma-separated keyword list.
pub fn parse_keywords(s: &str) -> (r: Vec<String>)
    ensures
        strs(r@) == keywords_of(split(s@, ',')),
{
    let cs = chars_of(s);
    let pieces = split_chars(cs.as_slice(), ',');
    let ghost ps = char_vecs(pieces@);
    let mut r: Vec<String> = Vec::new();
    let mut i: usize = 0;
    while i < pieces.len()
        invariant
            i <= pieces@.len(),
            ps == char_vecs(pieces@),
            ps == split(s@, ','),
            strs(r@) == keywords_of(ps.take(i as int)),
        decreases pieces@.len() - i,
    {
        let t = string_of(trim_chars(pieces[i].as_slice()).as_slice());
        let k = to_lowercase(t.as_str());
        assert(ps.take(i + 1).drop_last() == ps.take(i as int));
        assert(ps[i as int] == pieces@[i as int]@);
        if !k.as_str().is_empty() {
            let ghost before = r@;
            r.push(k);
            assert(strs(r@) =~= strs(before).push(k@));
        }
        i = i + 1;
    }
    assert(ps.take(ps.len() as int) == ps);
    r
}

/// A switch: on unless set to `false` (in any case) or `0`.
pub open spec fn switch_of(v: Option<Seq<char>>) -> bool {
    match v {
        Some(s) => lowercase(s) != "false"@ && s != "0"@,
        None => true,
    }
}

/// Read a switch variable: on unless set to `false` (in any case) or `0`.
pub fn parse_switch(v: &Option<String>) -> (b: bool)
    ensures
        b == switch_of(opt_view(*v)),
{
    match v {
        Some(s) => {
            let low = chars_of(to_lowercase(s.as_str()).as_str());
            let f = chars_of("false");
            let cs = chars_of(s.as_str());
            let z = chars_of("0");
            !crate::text::eq_chars(low.as_slice(), f.as_slice()) && !crate::text::eq_chars(
                cs.as_slice(),
                z.as_slice(),
            )
        },
        None => true,
    }
}

/// A number variable: its value when it parses, else the default.
pub open spec fn number_of(v: Option<Seq<char>>, max: nat, default: nat) -> nat {
    match v {
        Some(s) => match parse_unsigned(s, max) {
            Some(n) => n,
            None => default,
        },
        None => default,
    }
}

/// Read a number variable: its value when it parses, else the default.
fn parse_number(v: &Option<String>, max: u64, default: u64) -> (r: u64)
    requires
        default <= max,
    ensures
        r as nat == number_of(opt_view(*v), max as nat, default as nat),
        r <= max,
{
    match v {
        Some(s) => match parse_unsigned_text(s.as_str(), max) {
            Some(n) => n,
            None => default,
        },
        None => default,
    }
}

/// Model of the environment a configuration is read from.
pub struct EnvVarsView {
    pub vault_path: Option<Seq<char>>,
    pub sensitive_keywords: Option<Seq<char>>,
    pub cache_size: Option<Seq<char>>,
    pub enable_watcher: Option<Seq<char>>,
    pub watcher_debounce_ms: Option<Seq<char>>,
    pub enable_embeddings: Option<Seq<char>>,
    pub embedding_max_chars: Option<Seq<char>>,
    pub cache_dir: Option<Seq<char>>,
    pub current_dir: Option<Seq<char>>,
    pub home_dir: Option<Seq<char>>,
    pub system_cache_dir: Option<Seq<char>>,
}

/// The environment a configuration is read from: the `KNOWLEDGE_*`
/// variables, the current directory, the home directory and the system
/// cache directory, each when there is one.
#[derive(Debug, Clone)]
pub struct EnvVars {
    /// `KNOWLEDGE_VAULT_PATH`.
    pub vault_path: Option<String>,
    /// `KNOWLEDGE_SENSITIVE_KEYWORDS`.
    pub sensitive_keywords: Option<String>,
    /// `KNOWLEDGE_CACHE_SIZE`.
    pub cache_size: Option<String>,
    /// `KNOWLEDGE_ENABLE_WATCHER`.
    pub enable_watcher: Option<String>,
    /// `KNOWLEDGE_WATCHER_DEBOUNCE_MS`.
    pub watcher_debounce_ms: Option<String>,
    /// `KNOWLEDGE_ENABLE_EMBEDDINGS`.
    pub enable_embeddings: Option<String>,
    /// `KNOWLEDGE_EMBEDDING_MAX_CHARS`.
    pub embedding_max_chars: Option<String>,
    /// `KNOWLEDGE_CACHE_DIR`.
    pub cache_dir: Option<String>,
    /// The current working directory.
    pub current_dir: Option<String>,
    /// The user's home directory.
    pub home_dir: Option<String>,
    /// The system cache directory.
    pub system_cache_dir: Option<String>,
}

impl View for EnvVars {
    type V = EnvVarsView;

    open spec fn view(&self) -> EnvVarsView {
        EnvVarsView {
            vault_path: opt_view(self.vault_path),
            sensitive_keywords: opt_view(self.sensitive_keywords),
            cache_size: opt_view(self.cache_size),
            enable_watcher: opt_view(self.enable_watcher),
            watcher_debounce_ms: opt_view(self.watcher_debounce_ms),
            enable_embeddings: opt_view(self.enable_embeddings),
            embedding_max_chars: opt_view(self.embedding_max_chars),
            cache_dir: opt_view(self.cache_dir),
            current_dir: opt_view(self.current_dir),
            home_dir: opt_view(self.home_dir),
            system_cache_dir: opt_view(self.system_cache_dir),
        }
    }
}

/// Trait for reading environment variables.
///
/// This abstraction allows for dependency injection in tests,
/// avoiding manipulation of global environment state.
pub trait EnvReader {
    /// Get the value of an environment variable.
    fn get_var(&self, key: &str) -> Option<String>;

    /// Get the current working directory.
    fn current_dir(&self) -> Option<String>;
}

/// Model of a [`Config`].
pub struct ConfigView {
    pub vault_path: Seq<char>,
    pub sensitive_keywords: Seq<Seq<char>>,
    pub cache_size: nat,
    pub enable_watcher: bool,
    pub watcher_debounce_ms: nat,
    pub enable_embeddings: bool,
    pub embedding_max_chars: nat,
    pub cache_dir: Seq<char>,
}

/// Configuration for the knowledge vault MCP server.
#[derive(Debug, Clone)]
pub struct Config {
    /// Path to the vault directory containing markdown notes.
    pub vault_path: String,
    /// Keywords that indicate potentially sensitive content.
    pub sensitive_keywords: Vec<String>,
    /// Content cache size (number of notes to cache in memory).
    pub cache_size: usize,
    /// Whether to enable file system watching for live updates.
    pub enable_watcher: bool,
    /// Debounce duration for file watcher in milliseconds.
    pub watcher_debounce_ms: u64,
    /// Whether to enable semantic search with embeddings.
    pub enable_embeddings: bool,
    /// Maximum content characters to include in embeddings.
    pub embedding_max_chars: usize,
    /// Cache directory for embeddings and model files.
    pub cache_dir: String,
}

impl View for Config {
    type V = ConfigView;

    open spec fn view(&self) -> ConfigView {
        ConfigView {
            vault_path: self.vault_path@,
            sensitive_keywords: strs(self.sensitive_keywords@),
            cache_size: self.cache_size as nat,
            enable_watcher: self.enable_watcher,
            watcher_debounce_ms: self.watcher_debounce_ms as nat,
            enable_embeddings: self.enable_embeddings,
            embedding_max_chars: self.embedding_max_chars as nat,
            cache_dir: self.cache_dir@,
        }
    }
}

/// The configuration that the environment `e` gives.
pub open spec fn config_of(e: EnvVarsView) -> ConfigView {
    ConfigView {
        vault_path: match e.vault_path {
            Some(p) => expanded(p, e.home_dir),
            None => match e.current_dir {
                Some(d) => d,
                None => "."@,
            },
        },
        sensitive_keywords: match e.sensitive_keywords {
            Some(s) => keywords_of(split(s, ',')),
            None => default_keywords(),
        },
        cache_size: number_of(e.cache_size, usize::MAX as nat, DEFAULT_CACHE_SIZE as nat),
        enable_watcher: switch_of(e.enable_watcher),
        watcher_debounce_ms: number_of(e.watcher_debounce_ms, u64::MAX as nat, DEFAULT_WATCHER_DEBOUNCE_MS as nat),
        enable_embeddings: switch_of(e.enable_embeddings),
        embedding_max_chars: number_of(e.embedding_max_chars, usize::MAX as nat, DEFAULT_EMBEDDING_MAX_CHARS as nat),
        cache_dir: match e.cache_dir {
            Some(p) => expanded(p, e.home_dir),
            None => default_cache_dir(e.system_cache_dir),
        },
    }
}

/// The configuration for vault `path` with every default.
pub open spec fn config_with_path(path: Seq<char>, system_cache_dir: Option<Seq<char>>) -> ConfigView {
    ConfigView {
        vault_path: path,
        sensitive_keywords: default_keywords(),
        cache_size: DEFAULT_CACHE_SIZE as nat,
        enable_watcher: true,
        watcher_debounce_ms: DEFAULT_WATCHER_DEBOUNCE_MS as nat,
        enable_embeddings: true,
        embedding_max_chars: DEFAULT_EMBEDDING_MAX_CHARS as nat,
        cache_dir: default_cache_dir(system_cache_dir),
    }
}

/// The cache directory under the system cache directory (or `.`).
fn default_cache_path(system: &Option<String>) -> (r: String)
    ensures
        r@ == default_cache_dir(opt_view(*system)),
{
    match system {
        Some(d) => path_join(d.as_str(), "knowledge-mcp"),
        None => path_join(".", "knowledge-mcp"),
    }
}

/// A `usize` setting read as a number.
fn parse_size(v: &Option<String>, default: usize) -> (r: usize)
    ensures
        r as nat == number_of(opt_view(*v), usize::MAX as nat, default as nat),
{
    parse_number(v, usize::MAX as u64, default as u64) as usize
}

/// `v` is an answer `reader` may give for the variable `key`.
pub open spec fn reads_var<R: EnvReader>(reader: &R, key: &str, v: Option<Seq<char>>) -> bool {
    exists|r: Option<String>| #[trigger] call_ensures(R::get_var, (reader, key), r) && opt_view(r) == v
}

/// `v` is an answer `reader` may give for the current directory.
pub open spec fn reads_current_dir<R: EnvReader>(reader: &R, v: Option<Seq<char>>) -> bool {
    exists|r: Option<String>| #[trigger] call_ensures(R::current_dir, (reader,), r) && opt_view(r) == v
}

/// `e` holds what `reader` gives: each `KNOWLEDGE_*` field the reader's
/// answer for that variable, and the reader's current directory.
pub open spec fn env_of_reader<R: EnvReader>(reader: &R, e: EnvVarsView) -> bool {
    &&& reads_var(reader, "KNOWLEDGE_VAULT_PATH", e.vault_path)
    &&& reads_var(reader, "KNOWLEDGE_SENSITIVE_KEYWORDS", e.sensitive_keywords)
    &&& reads_var(reader, "KNOWLEDGE_CACHE_SIZE", e.cache_size)
    &&& reads_var(reader, "KNOWLEDGE_ENABLE_WATCHER", e.enable_watcher)
    &&& reads_var(reader, "KNOWLEDGE_WATCHER_DEBOUNCE_MS", e.watcher_debounce_ms)
    &&& reads_var(reader, "KNOWLEDGE_ENABLE_EMBEDDINGS", e.enable_embeddings)
    &&& reads_var(reader, "KNOWLEDGE_EMBEDDING_MAX_CHARS", e.embedding_max_chars)
    &&& reads_var(reader, "KNOWLEDGE_CACHE_DIR", e.cache_dir)
    &&& reads_current_dir(reader, e.current_dir)
}

/// The configuration for a vault path that does not start with `~`, with
/// every default, is the one read from an environment that sets only
/// `KNOWLEDGE_VAULT_PATH` to that path (whatever the current and home
/// directories), with the same system cache directory.
pub proof fn lemma_with_path_is_env_config(
    path: Seq<char>,
    current_dir: Option<Seq<char>>,
    home_dir: Option<Seq<char>>,
    system_cache_dir: Option<Seq<char>>,
)
    requires
        !(path.len() > 0 && path[0] == '~'),
    ensures
        config_with_path(path, system_cache_dir) == config_of(
            EnvVarsView {
                vault_path: Some(path),
                sensitive_keywords: None,
                cache_size: None,
                enable_watcher: None,
                watcher_debounce_ms: None,
                enable_embeddings: None,
                embedding_max_chars: None,
                cache_dir: None,
                current_dir,
                home_dir,
                system_cache_dir,
            },
        ),
{
    reveal_strlit("~/");
    reveal_strlit("~");
    if starts_with(path, "~/"@) {
        assert(path[0] == "~/"@[0]);
    }
    if path == "~"@ {
        assert(path[0] == '~');
    }
}

impl Config {
    /// Build the configuration from the environment `vars`.
    pub fn from_vars(vars: &EnvVars) -> (c: Self)
        ensures
            c@ == config_of(vars@),
    {
        let vault_path = match &vars.vault_path {
            Some(p) => expand_tilde_with_home(p.as_str(), &vars.home_dir),
            None => match &vars.current_dir {
                Some(d) => d.clone(),
                None => ".".to_owned(),
            },
        };
        let sensitive_keywords = match &vars.sensitive_keywords {
            Some(s) => parse_keywords(s.as_str()),
            None => default_sensitive_keywords(),
        };
        let cache_size = parse_size(&vars.cache_size, DEFAULT_CACHE_SIZE);
        let enable_watcher = parse_switch(&vars.enable_watcher);
        let watcher_debounce_ms = parse_number(&vars.watcher_debounce_ms, u64::MAX, DEFAULT_WATCHER_DEBOUNCE_MS);
        let enable_embeddings = parse_switch(&vars.enable_embeddings);
        let embedding_max_chars = parse_size(&vars.embedding_max_chars, DEFAULT_EMBEDDING_MAX_CHARS);
        let cache_dir = match &vars.cache_dir {
            Some(p) => expand_tilde_with_home(p.as_str(), &vars.home_dir),
            None => default_cache_path(&vars.system_cache_dir),
        };
        Config {
            vault_path,
            sensitive_keywords,
            cache_size,
            enable_watcher,
            watcher_debounce_ms,
            enable_embeddings,
            embedding_max_chars,
            cache_dir,
        }
    }

    /// Read the environment through `reader` (and the home and system cache
    /// directories), ready for [`Config::from_vars`]: each `KNOWLEDGE_*`
    /// field is what the reader gives for that variable, and the current
    /// directory is the reader's.
    fn read_vars<R: EnvReader>(reader: &R) -> (v: EnvVars)
        ensures
            env_of_reader(reader, v@),
    {
        let vault_path = reader.get_var("KNOWLEDGE_VAULT_PATH");
        let sensitive_keywords = reader.get_var("KNOWLEDGE_SENSITIVE_KEYWORDS");
        let cache_size = reader.get_var("KNOWLEDGE_CACHE_SIZE");
        let enable_watcher = reader.get_var("KNOWLEDGE_ENABLE_WATCHER");
        let watcher_debounce_ms = reader.get_var("KNOWLEDGE_WATCHER_DEBOUNCE_MS");
        let enable_embeddings = reader.get_var("KNOWLEDGE_ENABLE_EMBEDDINGS");
        let embedding_max_chars = reader.get_var("KNOWLEDGE_EMBEDDING_MAX_CHARS");
        let cache_path = reader.get_var("KNOWLEDGE_CACHE_DIR");
        let current_dir = reader.current_dir();
        EnvVars {
            vault_path,
            sensitive_keywords,
            cache_size,
            enable_watcher,
            watcher_debounce_ms,
            enable_embeddings,
            embedding_max_chars,
            cache_dir: cache_path,
            current_dir,
            home_dir: home_dir(),
            system_cache_dir: cache_dir(),
        }
    }

    /// Create a new configuration from a custom environment reader: the
    /// configuration [`config_of`] an environment whose `KNOWLEDGE_*`
    /// variables and current directory are what `reader` gives (the home and
    /// system cache directories are the machine's).
    ///
    /// This is primarily useful for testing without modifying global state.
    pub fn from_env_reader<R: EnvReader>(reader: &R) -> (c: Self)
        ensures
            exists|e: EnvVarsView| env_of_reader(reader, e) && c@ == #[trigger] config_of(e),
    {
        let vars = Self::read_vars(reader);
        Self::from_vars(&vars)
    }

    /// Create a new configuration with a specific vault path.
    pub fn with_path(vault_path: &str) -> (c: Self)
        ensures
            exists|d: Option<Seq<char>>| c@ == #[trigger] config_with_path(vault_path@, d),
    {
        let system = cache_dir();
        let c = Config {
            vault_path: vault_path.to_owned(),
            sensitive_keywords: default_sensitive_keywords(),
            cache_size: DEFAULT_CACHE_SIZE,
            enable_watcher: true,
            watcher_debounce_ms: DEFAULT_WATCHER_DEBOUNCE_MS,
            enable_embeddings: true,
            embedding_max_chars: DEFAULT_EMBEDDING_MAX_CHARS,
            cache_dir: default_cache_path(&system),
        };
        assert(c@ == config_with_path(vault_path@, opt_view(system)));
        c
    }
}

} // verus!
