//! The settings of the program, as the settings file holds them, and the
//! lookups that the monitors make in them.
use vstd::prelude::*;
use vstd::string::*;
use crate::text::{eq_ignore_ascii_case, eq_ignore_case, parse_u64, parse_u64_spec, views};

verus! {

/// One value of the settings file: a string, or a list of strings.
#[derive(Clone, Debug)]
pub enum SettingValue {
    Text(String),
    List(Vec<String>),
}

/// The settings: each key with its value, in the order in which they were read.
#[derive(Clone, Debug)]
pub struct Settings {
    pub entries: Vec<(String, SettingValue)>,
}

/// Why a setting could not be had.
#[derive(Clone, Debug)]
pub enum ConfigError {
    /// The key is not in the settings.
    MissingKey(String),
    /// The key holds a list where a string was wanted, or the other way round.
    WrongType(String),
    /// The key's value is not a decimal number that fits in a `u64`.
    NotANumber(String),
}

/// The value of the first entry with key `key`.
pub open spec fn find_value(entries: Seq<(String, SettingValue)>, key: Seq<char>) -> Option<
    SettingValue,
>
    decreases entries.len(),
{
    if entries.len() == 0 {
        None
    } else if entries[0].0@ == key {
        Some(entries[0].1)
    } else {
        find_value(entries.drop_first(), key)
    }
}

/// The kind of a [`ConfigError`].
#[derive(Clone, Copy, Debug, PartialEq, Eq, Structural)]
pub enum ConfigErrorKind {
    MissingKey,
    WrongType,
    NotANumber,
}

/// The kind of `e` and the key that it names.
pub open spec fn error_parts(e: ConfigError) -> (ConfigErrorKind, Seq<char>) {
    match e {
        ConfigError::MissingKey(k) => (ConfigErrorKind::MissingKey, k@),
        ConfigError::WrongType(k) => (ConfigErrorKind::WrongType, k@),
        ConfigError::NotANumber(k) => (ConfigErrorKind::NotANumber, k@),
    }
}

/// The string that `key` holds, if it holds one.
pub open spec fn text_of(entries: Seq<(String, SettingValue)>, key: Seq<char>) -> Option<
    Seq<char>,
> {
    match find_value(entries, key) {
        Some(SettingValue::Text(t)) => Some(t@),
        _ => None,
    }
}

/// The list that `key` holds, if it holds one.
pub open spec fn list_of(entries: Seq<(String, SettingValue)>, key: Seq<char>) -> Option<
    Seq<Seq<char>>,
> {
    match find_value(entries, key) {
        Some(SettingValue::List(l)) => Some(views(l@)),
        _ => None,
    }
}

/// Whether the flag `key` reads "true", up to ASCII case.
pub open spec fn flag_of(entries: Seq<(String, SettingValue)>, key: Seq<char>) -> Option<bool> {
    match text_of(entries, key) {
        Some(t) => Some(eq_ignore_case(t, "true"@)),
        None => None,
    }
}

/// The number that `key` holds, where it holds a decimal `u64`.
pub open spec fn parse_u64_spec_of(entries: Seq<(String, SettingValue)>, key: Seq<char>) -> Option<u64> {
    match text_of(entries, key) {
        Some(t) => parse_u64_spec(t),
        None => None,
    }
}

/// The error that asking for the string `key` gives, where it holds none.
pub open spec fn missing_text_error(
    entries: Seq<(String, SettingValue)>,
    key: Seq<char>,
    e: ConfigError,
) -> bool {
    &&& text_of(entries, key) is None
    &&& error_parts(e).1 == key
    &&& error_parts(e).0 == (if find_value(entries, key) is None {
        ConfigErrorKind::MissingKey
    } else {
        ConfigErrorKind::WrongType
    })
}

/// Law: a key holds the value of the first entry that has it, and holds
/// nothing where no entry has it.
pub proof fn law_find_first(entries: Seq<(String, SettingValue)>, key: Seq<char>)
    ensures
        find_value(entries, key) is None <==> forall|i: int| 0 <= i < entries.len() ==> (#[trigger] entries[i]).0@ != key,
        find_value(entries, key) is Some ==> exists|i: int|
            0 <= i < entries.len() && (#[trigger] entries[i]).0@ == key && find_value(entries, key) == Some(entries[i].1)
                && forall|j: int| 0 <= j < i ==> (#[trigger] entries[j]).0@ != key,
    decreases entries.len(),
{
    if entries.len() > 0 {
        let rest = entries.drop_first();
        law_find_first(rest, key);
        assert forall|i: int| 0 <= i < rest.len() implies #[trigger] rest[i] == entries[i + 1] by {}
        if entries[0].0@ != key {
            if find_value(entries, key) is Some {
                let w = choose|w: int|
                    0 <= w < rest.len() && (#[trigger] rest[w]).0@ == key && find_value(rest, key) == Some(rest[w].1)
                        && forall|j: int| 0 <= j < w ==> (#[trigger] rest[j]).0@ != key;
                assert(entries[w + 1] == rest[w]);
                assert forall|j: int| 0 <= j < w + 1 implies (#[trigger] entries[j]).0@ != key by {
                    if j > 0 {
                        assert(entries[j] == rest[j - 1]);
                    }
                }
            } else {
                assert forall|i: int| 0 <= i < entries.len() implies (#[trigger] entries[i]).0@ != key by {
                    if i > 0 {
                        assert(entries[i] == rest[i - 1]);
                    }
                }
            }
        }
    }
}

/// Law: adding an entry for a key that the settings lack makes that key hold
/// the new value; every key that was already there, and every other key,
/// holds what it held before.
pub proof fn law_insert_then_find(
    entries: Seq<(String, SettingValue)>,
    key: String,
    value: SettingValue,
    other: Seq<char>,
)
    ensures
        find_value(entries, key@) is None ==> find_value(entries.push((key, value)), key@) == Some(
            value,
        ),
        (find_value(entries, other) is Some || other != key@) ==> find_value(
            entries.push((key, value)),
            other,
        ) == find_value(entries, other),
    decreases entries.len(),
{
    let pushed = entries.push((key, value));
    if entries.len() == 0 {
        assert(pushed.drop_first() =~= Seq::<(String, SettingValue)>::empty());
    } else {
        assert(pushed[0] == entries[0]);
        assert(pushed.drop_first() =~= entries.drop_first().push((key, value)));
        law_insert_then_find(entries.drop_first(), key, value, other);
        if entries[0].0@ != other {
            assert(find_value(entries, other) == find_value(entries.drop_first(), other));
            assert(find_value(pushed, other) == find_value(pushed.drop_first(), other));
        }
    }
}

impl Settings {
    /// No settings at all.
    pub fn new() -> (s: Settings)
        ensures
            s.entries@.len() == 0,
    {
        Settings { entries: Vec::new() }
    }

    /// Adds `key` with `value` after the entries already there.
    pub fn insert(&mut self, key: String, value: SettingValue)
        ensures
            final(self).entries@ == old(self).entries@.push((key, value)),
    {
        self.entries.push((key, value));
    }

    /// The value of `key`, if the settings hold it.
    pub fn lookup(&self, key: &str) -> (r: Option<&SettingValue>)
        ensures
            r == match find_value(self.entries@, key@) {
                Some(v) => Some(&v),
                None => None::<&SettingValue>,
            },
    {
        let target = String::from_str(key);
        let n = self.entries.len();
        let mut i: usize = 0;
        assert(self.entries@.skip(0) =~= self.entries@);
        while i < n
            invariant
                n == self.entries@.len(),
                i <= n,
                target@ == key@,
                find_value(self.entries@, key@) == find_value(self.entries@.skip(i as int), key@),
            decreases n - i,
        {
            let ghost rest = self.entries@.skip(i as int);
            assert(rest[0] == self.entries@[i as int]);
            assert(rest.drop_first() =~= self.entries@.skip(i + 1));
            if self.entries[i].0 == target {
                return Some(&self.entries[i].1);
            }
            i = i + 1;
        }
        assert(self.entries@.skip(n as int).len() == 0);
        None
    }

    /// The string that `key` holds; the error says whether it is missing or a list.
    pub fn get_text(&self, key: &str) -> (r: Result<String, ConfigError>)
        ensures
            match r {
                Ok(t) => text_of(self.entries@, key@) == Some(t@),
                Err(e) => missing_text_error(self.entries@, key@, e),
            },
    {
        match self.lookup(key) {
            Some(SettingValue::Text(t)) => Ok(t.clone()),
            Some(SettingValue::List(_)) => Err(ConfigError::WrongType(String::from_str(key))),
            None => Err(ConfigError::MissingKey(String::from_str(key))),
        }
    }

    /// The list that `key` holds; the error says whether it is missing or a string.
    pub fn get_list(&self, key: &str) -> (r: Result<Vec<String>, ConfigError>)
        ensures
            match r {
                Ok(l) => list_of(self.entries@, key@) == Some(views(l@)),
                Err(e) => {
                    &&& list_of(self.entries@, key@) is None
                    &&& error_parts(e).1 == key@
                    &&& error_parts(e).0 == (if find_value(self.entries@, key@) is None {
                        ConfigErrorKind::MissingKey
                    } else {
                        ConfigErrorKind::WrongType
                    })
                },
            },
    {
        match self.lookup(key) {
            Some(SettingValue::List(l)) => {
                let c = l.clone();
                assert(views(c@) =~= views(l@));
                Ok(c)
            },
            Some(SettingValue::Text(_)) => Err(ConfigError::WrongType(String::from_str(key))),
            None => Err(ConfigError::MissingKey(String::from_str(key))),
        }
    }

    /// Whether the flag `key` reads "true", up to ASCII case.
    pub fn is_enabled(&self, key: &str) -> (r: Result<bool, ConfigError>)
        ensures
            match r {
                Ok(b) => flag_of(self.entries@, key@) == Some(b),
                Err(e) => missing_text_error(self.entries@, key@, e),
            },
    {
        let t = self.get_text(key)?;
        Ok(eq_ignore_ascii_case(t.as_str(), "true"))
    }

    /// The decimal number that `key` holds.
    pub fn get_u64(&self, key: &str) -> (r: Result<u64, ConfigError>)
        ensures
            match r {
                Ok(v) => {
                    &&& text_of(self.entries@, key@) is Some
                    &&& parse_u64_spec(text_of(self.entries@, key@)->0) == Some(v)
                },
                Err(e) => match text_of(self.entries@, key@) {
                    Some(t) => parse_u64_spec(t) is None && e is NotANumber && error_parts(e).1 == key@,
                    None => missing_text_error(self.entries@, key@, e),
                },
            },
    {
        let t = self.get_text(key)?;
        match parse_u64(t.as_str()) {
            Some(v) => Ok(v),
            None => Err(ConfigError::NotANumber(String::from_str(key))),
        }
    }
}

} // verus!
