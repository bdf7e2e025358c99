//! The debugger's settings, given as `KEY=VALUE` pairs separated by `;`
//! (`FIREDBG_RUST_CONFIG=MAX_ARRAY_SIZE=100;DONT_TRACE_ALLOCATION`). A key
//! without a value is set to `true`.
use vstd::prelude::*;
use crate::decimal::parse_uint;
use crate::text::{str_eq, to_owned_string};
use crate::typename::{split_all, split_str, lemma_split_all_len};

verus! {

/// A setting's value: `true` or `false`, a number, or any other text.
#[allow(non_camel_case_types)]
#[derive(Debug, Clone)]
pub enum ConfigValue {
    String(String),
    bool(bool),
    u64(u64),
}

/// The content of a [`ConfigValue`].
#[allow(non_camel_case_types)]
pub enum SConfigValue {
    String(Seq<char>),
    bool(bool),
    u64(u64),
}

impl View for ConfigValue {
    type V = SConfigValue;

    open spec fn view(&self) -> SConfigValue {
        match self {
            ConfigValue::String(s) => SConfigValue::String(s@),
            ConfigValue::bool(b) => SConfigValue::bool(*b),
            ConfigValue::u64(v) => SConfigValue::u64(*v),
        }
    }
}

/// The value that the text after `=` gives.
pub open spec fn config_value_of(v: Seq<char>) -> SConfigValue {
    if v == "true"@ || v == "false"@ {
        SConfigValue::bool(v == "true"@)
    } else {
        match parse_uint(v, u64::MAX as nat) {
            Some(n) => SConfigValue::u64(n as u64),
            None => SConfigValue::String(v),
        }
    }
}

/// The index of the setting `k`.
pub open spec fn key_index(s: Seq<(Seq<char>, SConfigValue)>, k: Seq<char>) -> Option<int>
    decreases s.len(),
{
    if s.len() == 0 {
        None
    } else {
        match key_index(s.drop_last(), k) {
            Some(i) => Some(i),
            None => if s.last().0 == k {
                Some((s.len() - 1) as int)
            } else {
                None
            },
        }
    }
}

/// Setting `k` to `v`, as a map's `insert` does.
pub open spec fn config_insert(s: Seq<(Seq<char>, SConfigValue)>, k: Seq<char>, v: SConfigValue) -> Seq<
    (Seq<char>, SConfigValue),
> {
    match key_index(s, k) {
        Some(i) => s.update(i, (k, v)),
        None => s.push((k, v)),
    }
}

/// The setting that one `;`-separated piece gives.
pub open spec fn piece_setting(piece: Seq<char>) -> (Seq<char>, SConfigValue) {
    let kv = split_all(piece, "="@);
    if kv.len() >= 2 {
        (kv[0], config_value_of(kv[1]))
    } else {
        (kv[0], SConfigValue::bool(true))
    }
}

/// The settings that the pieces give, each later one replacing an earlier
/// one of the same key.
pub open spec fn settings_of(pieces: Seq<Seq<char>>) -> Seq<(Seq<char>, SConfigValue)>
    decreases pieces.len(),
{
    if pieces.len() == 0 {
        Seq::empty()
    } else {
        let (k, v) = piece_setting(pieces.last());
        config_insert(settings_of(pieces.drop_last()), k, v)
    }
}

/// The settings that the text of the variable gives.
pub open spec fn config_of(s: Seq<char>) -> Seq<(Seq<char>, SConfigValue)> {
    settings_of(split_all(s, ";"@))
}

/// The debugger's settings.
#[derive(Debug)]
pub struct DebuggerConfig {
    entries: Vec<(String, ConfigValue)>,
}

/// The content of settings.
pub open spec fn entries_view(s: Seq<(String, ConfigValue)>) -> Seq<(Seq<char>, SConfigValue)> {
    Seq::new(s.len(), |i: int| (s[i].0@, s[i].1@))
}

impl DebuggerConfig {
    pub closed spec fn settings(&self) -> Seq<(Seq<char>, SConfigValue)> {
        entries_view(self.entries@)
    }

    /// The settings of the variable's text; no setting where it is unset.
    pub fn from_value(value: Option<&str>) -> (r: DebuggerConfig)
        ensures
            r.settings() == match value {
                Some(s) => config_of(s@),
                None => Seq::empty(),
            },
    {
        let mut c = DebuggerConfig { entries: Vec::new() };
        assert(c.settings() =~= Seq::<(Seq<char>, SConfigValue)>::empty());
        match value {
            None => c,
            Some(string) => {
                proof {
                    reveal_strlit(";");
                }
                let pieces = split_str(string, ";");
                let ghost ps = split_all(string@, ";"@);
                let mut i: usize = 0;
                while i < pieces.len()
                    invariant
                        i <= pieces@.len(),
                        pieces@.len() == ps.len(),
                        ps == split_all(string@, ";"@),
                        forall|j: int| 0 <= j < pieces@.len() ==> #[trigger] pieces@[j]@ == ps[j],
                        c.settings() == settings_of(ps.take(i as int)),
                    decreases pieces@.len() - i,
                {
                    assert(ps.take(i + 1).drop_last() =~= ps.take(i as int));
                    let (k, v) = Self::piece(pieces[i]);
                    c.insert(k, v);
                    i = i + 1;
                }
                assert(ps.take(i as int) =~= ps);
                c
            },
        }
    }

    /// The setting of one piece.
    fn piece(piece: &str) -> (r: (String, ConfigValue))
        ensures
            (r.0@, r.1@) == piece_setting(piece@),
    {
        proof {
            reveal_strlit("=");
            lemma_split_all_len(piece@, "="@);
        }
        let kv = split_str(piece, "=");
        let key = to_owned_string(kv[0]);
        if kv.len() >= 2 {
            let value = kv[1];
            let v = if str_eq(value, "true") || str_eq(value, "false") {
                ConfigValue::bool(str_eq(value, "true"))
            } else {
                match crate::decimal::parse_uint_str(value, u64::MAX) {
                    Some(n) => ConfigValue::u64(n),
                    None => ConfigValue::String(to_owned_string(value)),
                }
            };
            (key, v)
        } else {
            (key, ConfigValue::bool(true))
        }
    }

    /// Sets `k` to `v`.
    fn insert(&mut self, k: String, v: ConfigValue)
        ensures
            final(self).settings() == config_insert(old(self).settings(), k@, v@),
    {
        let ghost s0 = self.settings();
        let mut i: usize = 0;
        while i < self.entries.len()
            invariant
                i <= self.entries@.len(),
                self.entries@ == old(self).entries@,
                s0 == self.settings(),
                forall|j: int| 0 <= j < i ==> s0[j].0 != k@,
            decreases self.entries@.len() - i,
        {
            if str_eq(self.entries[i].0.as_str(), k.as_str()) {
                proof {
                    lemma_key_index_first(s0, k@, i as int);
                }
                self.entries.set(i, (k, v));
                assert(self.settings() =~= s0.update(i as int, (k@, v@)));
                return;
            }
            i = i + 1;
        }
        proof {
            lemma_key_index_none(s0, k@);
        }
        self.entries.push((k, v));
        assert(self.settings() =~= s0.push((k@, v@)));
    }

    /// The number of settings.
    pub fn len(&self) -> (r: usize)
        ensures
            r == self.settings().len(),
    {
        self.entries.len()
    }

    /// The value of setting `key`.
    pub fn get(&self, key: &str) -> (r: Option<&ConfigValue>)
        ensures
            match r {
                Some(v) => key_index(self.settings(), key@) matches Some(i) && self.settings()[i].1
                    == v@,
                None => key_index(self.settings(), key@) is None,
            },
    {
        let ghost s0 = self.settings();
        let mut i: usize = 0;
        while i < self.entries.len()
            invariant
                i <= self.entries@.len(),
                s0 == self.settings(),
                forall|j: int| 0 <= j < i ==> s0[j].0 != key@,
            decreases self.entries@.len() - i,
        {
            if str_eq(self.entries[i].0.as_str(), key) {
                proof {
                    lemma_key_index_first(s0, key@, i as int);
                }
                return Some(&self.entries[i].1);
            }
            i = i + 1;
        }
        proof {
            lemma_key_index_none(s0, key@);
        }
        None
    }

    /// A numeric setting, as a `usize`.
    pub fn config_usize(&self, key: &str) -> (r: Option<usize>)
        ensures
            r == match key_index(self.settings(), key@) {
                Some(i) => match self.settings()[i].1 {
                    SConfigValue::u64(v) => Some(v as usize),
                    _ => None,
                },
                None => None,
            },
    {
        match self.get(key) {
            Some(ConfigValue::u64(v)) => Some(*v as usize),
            _ => None,
        }
    }

    /// A flag: set only where it is `true`.
    pub fn config_bool(&self, key: &str) -> (r: bool)
        ensures
            r == match key_index(self.settings(), key@) {
                Some(i) => self.settings()[i].1 == SConfigValue::bool(true),
                None => false,
            },
    {
        match self.get(key) {
            Some(ConfigValue::bool(v)) => *v,
            _ => false,
        }
    }

    /// Maximum number of items in array, string and other containers (1024
    /// where unset).
    pub fn max_array_size(&self) -> (r: usize)
        ensures
            r == match self.config_usize_spec("MAX_ARRAY_SIZE"@) {
                Some(v) => v,
                None => 1024,
            },
    {
        match self.config_usize("MAX_ARRAY_SIZE") {
            Some(v) => v,
            None => 1024,
        }
    }

    /// Recursive limit; this limits the depth of a binary tree (12 where
    /// unset).
    pub fn recursive_deref_limit(&self) -> (r: usize)
        ensures
            r == match self.config_usize_spec("RECURSIVE_DEREF_LIMIT"@) {
                Some(v) => v,
                None => 12,
            },
    {
        match self.config_usize("RECURSIVE_DEREF_LIMIT") {
            Some(v) => v,
            None => 12,
        }
    }

    /// If set, hash maps are not sorted by key.
    pub fn keep_hash_order(&self) -> (r: bool)
        ensures
            r == self.config_bool_spec("KEEP_HASH_ORDER"@),
    {
        self.config_bool("KEEP_HASH_ORDER")
    }

    /// If set, heap allocations are not traced.
    pub fn dont_trace_allocation(&self) -> (r: bool)
        ensures
            r == self.config_bool_spec("DONT_TRACE_ALLOCATION"@),
    {
        self.config_bool("DONT_TRACE_ALLOCATION")
    }

    pub open spec fn config_usize_spec(&self, key: Seq<char>) -> Option<usize> {
        match key_index(self.settings(), key) {
            Some(i) => match self.settings()[i].1 {
                SConfigValue::u64(v) => Some(v as usize),
                _ => None,
            },
            None => None,
        }
    }

    pub open spec fn config_bool_spec(&self, key: Seq<char>) -> bool {
        match key_index(self.settings(), key) {
            Some(i) => self.settings()[i].1 == SConfigValue::bool(true),
            None => false,
        }
    }
}

proof fn lemma_key_index_first(s: Seq<(Seq<char>, SConfigValue)>, k: Seq<char>, i: int)
    requires
        0 <= i < s.len(),
        s[i].0 == k,
        forall|j: int| 0 <= j < i ==> s[j].0 != k,
    ensures
        key_index(s, k) == Some(i),
    decreases s.len(),
{
    if i < s.len() - 1 {
        lemma_key_index_first(s.drop_last(), k, i);
    } else {
        lemma_key_index_none(s.drop_last(), k);
    }
}

proof fn lemma_key_index_none(s: Seq<(Seq<char>, SConfigValue)>, k: Seq<char>)
    requires
        forall|j: int| 0 <= j < s.len() ==> s[j].0 != k,
    ensures
        key_index(s, k) is None,
    decreases s.len(),
{
    if s.len() > 0 {
        lemma_key_index_none(s.drop_last(), k);
    }
}

} // verus!
