//! Start-up settings of the service, read from the settings of its
//! configuration file: dotted keys (`file.width`) with their values as text.

use vstd::prelude::*;

verus! {

/// Credentials of the privileged user.
pub struct AuthConfig {
    pub admin_hashed_password: String,
}

/// Key material for signing session cookies.
pub struct CookieConfig {
    pub key_base64: String,
}

/// Initial canvas, cooldown and where the canvas is stored.
pub struct FileConfig {
    pub width: u32,
    pub height: u32,
    pub delay: u32,
    pub file_path: String,
}

/// Initial service switches.
pub struct StateConfig {
    pub active: bool,
}

/// All start-up settings.
pub struct AppConfig {
    pub auth: AuthConfig,
    pub cookies: CookieConfig,
    pub file: FileConfig,
    pub state: StateConfig,
}

/// Why the settings do not make a configuration; each names the key.
#[derive(Debug, PartialEq, Eq)]
pub enum ConfigError {
    MissingKey(String),
    InvalidValue(String),
}

/// Settings as pairs of key and value text.
pub open spec fn settings_view(entries: Seq<(String, String)>) -> Seq<(Seq<char>, Seq<char>)> {
    entries.map_values(|p: (String, String)| (p.0@, p.1@))
}

/// The value of the first setting with key `key`, looking from index `i` on.
pub open spec fn lookup_from(s: Seq<(Seq<char>, Seq<char>)>, key: Seq<char>, i: int) -> Option<
    Seq<char>,
>
    decreases s.len() - i,
{
    if i < 0 || i >= s.len() {
        None
    } else if s[i].0 == key {
        Some(s[i].1)
    } else {
        lookup_from(s, key, i + 1)
    }
}

/// The value of the first setting with key `key`.
pub open spec fn lookup(s: Seq<(Seq<char>, Seq<char>)>, key: Seq<char>) -> Option<Seq<char>> {
    lookup_from(s, key, 0)
}

/// A character is a decimal digit.
pub open spec fn is_digit(c: char) -> bool {
    '0' <= c <= '9'
}

/// The number that a string of decimal digits writes.
pub open spec fn decimal_value(s: Seq<char>) -> int
    decreases s.len(),
{
    if s.len() == 0 {
        0
    } else {
        decimal_value(s.drop_last()) * 10 + (s.last() as int - '0' as int)
    }
}

/// The `u32` that a text writes in decimal digits, if it does.
pub open spec fn parse_u32_spec(s: Seq<char>) -> Option<u32> {
    if s.len() > 0 && (forall|i: int| 0 <= i < s.len() ==> is_digit(#[trigger] s[i])) && decimal_value(
        s,
    ) <= u32::MAX {
        Some(decimal_value(s) as u32)
    } else {
        None
    }
}

/// The boolean that a text writes, if it does.
pub open spec fn parse_bool_spec(s: Seq<char>) -> Option<bool> {
    if s == "true"@ {
        Some(true)
    } else if s == "false"@ {
        Some(false)
    } else {
        None
    }
}

/// A number setting: present and a `u32`.
pub open spec fn number_setting(s: Seq<(Seq<char>, Seq<char>)>, key: Seq<char>) -> Option<u32> {
    match lookup(s, key) {
        Some(v) => parse_u32_spec(v),
        None => None,
    }
}

/// A switch setting: present and `true` or `false`.
pub open spec fn flag_setting(s: Seq<(Seq<char>, Seq<char>)>, key: Seq<char>) -> Option<bool> {
    match lookup(s, key) {
        Some(v) => parse_bool_spec(v),
        None => None,
    }
}

/// The settings hold every key with a value of its kind.
pub open spec fn settings_complete(s: Seq<(Seq<char>, Seq<char>)>) -> bool {
    &&& lookup(s, "auth.admin_hashed_password"@) is Some
    &&& lookup(s, "cookies.key_base64"@) is Some
    &&& number_setting(s, "file.width"@) is Some
    &&& number_setting(s, "file.height"@) is Some
    &&& number_setting(s, "file.delay"@) is Some
    &&& lookup(s, "file.file_path"@) is Some
    &&& flag_setting(s, "state.active"@) is Some
}

proof fn lemma_decimal_step(s: Seq<char>, i: int)
    requires
        0 <= i < s.len(),
    ensures
        decimal_value(s.subrange(0, i + 1)) == decimal_value(s.subrange(0, i)) * 10 + (s[i] as int
            - '0' as int),
{
    assert(s.subrange(0, i + 1).drop_last() =~= s.subrange(0, i));
}

proof fn lemma_decimal_grows(s: Seq<char>, i: int)
    requires
        0 <= i <= s.len(),
        forall|j: int| 0 <= j < s.len() ==> is_digit(#[trigger] s[j]),
    ensures
        decimal_value(s) >= decimal_value(s.subrange(0, i)),
        decimal_value(s.subrange(0, i)) >= 0,
    decreases s.len() - i,
{
    if i == s.len() {
        assert(s.subrange(0, i) =~= s);
        lemma_decimal_nonneg(s);
    } else {
        lemma_decimal_step(s, i);
        lemma_decimal_nonneg(s.subrange(0, i));
        lemma_decimal_grows(s, i + 1);
    }
}

proof fn lemma_decimal_nonneg(s: Seq<char>)
    requires
        forall|j: int| 0 <= j < s.len() ==> is_digit(#[trigger] s[j]),
    ensures
        decimal_value(s) >= 0,
    decreases s.len(),
{
    if s.len() > 0 {
        let p = s.drop_last();
        assert forall|j: int| 0 <= j < p.len() implies is_digit(#[trigger] p[j]) by {
            assert(p[j] == s[j]);
        }
        lemma_decimal_nonneg(p);
        assert(is_digit(s[s.len() - 1]));
    }
}

/// Reads a `u32` written in decimal digits; `None` for any other text.
pub fn parse_u32(text: &String) -> (r: Option<u32>)
    ensures
        r == parse_u32_spec(text@),
{
    let s = text.as_str();
    let n = s.unicode_len();
    if n == 0 {
        return None;
    }
    let mut value: u64 = 0;
    let mut i: usize = 0;
    while i < n
        invariant
            n == text@.len(),
            s@ == text@,
            i <= n,
            value <= u32::MAX,
            value == decimal_value(text@.subrange(0, i as int)),
            forall|j: int| 0 <= j < i ==> is_digit(#[trigger] text@[j]),
        decreases n - i,
    {
        let c = s.get_char(i);
        if !('0' <= c && c <= '9') {
            return None;
        }
        proof {
            lemma_decimal_step(text@, i as int);
        }
        value = value * 10 + (c as u64 - '0' as u64);
        if value > u32::MAX as u64 {
            proof {
                if forall|j: int| 0 <= j < text@.len() ==> is_digit(#[trigger] text@[j]) {
                    lemma_decimal_grows(text@, i + 1);
                }
            }
            return None;
        }
        i = i + 1;
    }
    assert(text@.subrange(0, n as int) =~= text@);
    Some(value as u32)
}

/// Reads `true` or `false`; `None` for any other text.
pub fn parse_bool(text: &String) -> (r: Option<bool>)
    ensures
        r == parse_bool_spec(text@),
{
    if *text == String::from_str("true") {
        Some(true)
    } else if *text == String::from_str("false") {
        Some(false)
    } else {
        None
    }
}

/// The value of the first setting with the given key.
fn find_setting(entries: &Vec<(String, String)>, key: &str) -> (r: Option<String>)
    ensures
        r matches Some(v) ==> lookup(settings_view(entries@), key@) == Some(v@),
        r is None ==> lookup(settings_view(entries@), key@) is None,
{
    let k = String::from_str(key);
    let ghost s = settings_view(entries@);
    let mut i: usize = 0;
    while i < entries.len()
        invariant
            i <= entries@.len(),
            s == settings_view(entries@),
            k@ == key@,
            lookup(s, key@) == lookup_from(s, key@, i as int),
        decreases entries@.len() - i,
    {
        assert(s[i as int] == (entries@[i as int].0@, entries@[i as int].1@));
        if entries[i].0 == k {
            return Some(entries[i].1.clone());
        }
        i = i + 1;
    }
    None
}

/// A text setting, or the error naming its key.
fn text_of(entries: &Vec<(String, String)>, key: &str) -> (r: Result<String, ConfigError>)
    ensures
        r matches Ok(v) ==> lookup(settings_view(entries@), key@) == Some(v@),
        r is Err <==> lookup(settings_view(entries@), key@) is None,
        r matches Err(e) ==> e matches ConfigError::MissingKey(k) && k@ == key@,
{
    match find_setting(entries, key) {
        Some(v) => Ok(v),
        None => Err(ConfigError::MissingKey(String::from_str(key))),
    }
}

/// A number setting, or the error naming its key.
fn number_of(entries: &Vec<(String, String)>, key: &str) -> (r: Result<u32, ConfigError>)
    ensures
        r matches Ok(v) ==> number_setting(settings_view(entries@), key@) == Some(v),
        r is Err <==> number_setting(settings_view(entries@), key@) is None,
        r matches Err(e) ==> match e {
            ConfigError::MissingKey(k) => k@ == key@ && lookup(settings_view(entries@), key@) is None,
            ConfigError::InvalidValue(k) => k@ == key@ && lookup(settings_view(entries@), key@) is Some,
        },
{
    match find_setting(entries, key) {
        Some(v) => match parse_u32(&v) {
            Some(n) => Ok(n),
            None => Err(ConfigError::InvalidValue(String::from_str(key))),
        },
        None => Err(ConfigError::MissingKey(String::from_str(key))),
    }
}

impl AppConfig {
    /// The configuration that the settings of a configuration file give:
    /// each key's first setting, numbers in decimal digits, switches as
    /// `true` or `false`. Fails when a key is missing or its value is not of
    /// its kind.
    pub fn from_file(entries: &Vec<(String, String)>) -> (r: Result<AppConfig, ConfigError>)
        ensures
            r is Ok <==> settings_complete(settings_view(entries@)),
            r matches Err(e) ==> match e {
                ConfigError::MissingKey(k) => lookup(settings_view(entries@), k@) is None,
                ConfigError::InvalidValue(k) => lookup(settings_view(entries@), k@) is Some,
            },
            r matches Ok(c) ==> {
                let s = settings_view(entries@);
                &&& lookup(s, "auth.admin_hashed_password"@) == Some(c.auth.admin_hashed_password@)
                &&& lookup(s, "cookies.key_base64"@) == Some(c.cookies.key_base64@)
                &&& number_setting(s, "file.width"@) == Some(c.file.width)
                &&& number_setting(s, "file.height"@) == Some(c.file.height)
                &&& number_setting(s, "file.delay"@) == Some(c.file.delay)
                &&& lookup(s, "file.file_path"@) == Some(c.file.file_path@)
                &&& flag_setting(s, "state.active"@) == Some(c.state.active)
            },
    {
        let admin_hashed_password = match text_of(entries, "auth.admin_hashed_password") {
            Ok(v) => v,
            Err(e) => return Err(e),
        };
        let key_base64 = match text_of(entries, "cookies.key_base64") {
            Ok(v) => v,
            Err(e) => return Err(e),
        };
        let width = match number_of(entries, "file.width") {
            Ok(v) => v,
            Err(e) => return Err(e),
        };
        let height = match number_of(entries, "file.height") {
            Ok(v) => v,
            Err(e) => return Err(e),
        };
        let delay = match number_of(entries, "file.delay") {
            Ok(v) => v,
            Err(e) => return Err(e),
        };
        let file_path = match text_of(entries, "file.file_path") {
            Ok(v) => v,
            Err(e) => return Err(e),
        };
        let active = match find_setting(entries, "state.active") {
            Some(v) => match parse_bool(&v) {
                Some(b) => b,
                None => return Err(ConfigError::InvalidValue(String::from_str("state.active"))),
            },
            None => return Err(ConfigError::MissingKey(String::from_str("state.active"))),
        };
        Ok(
            AppConfig {
                auth: AuthConfig { admin_hashed_password },
                cookies: CookieConfig { key_base64 },
                file: FileConfig { width, height, delay, file_path },
                state: StateConfig { active },
            },
        )
    }
}

} // verus!
