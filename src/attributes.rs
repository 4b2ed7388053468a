use vstd::prelude::*;
use crate::text::{str_eq, to_string};

verus! {

/// One `#[jnix(...)]` entry attached to a type, field or variant, as the
/// declaration's syntax gives it.
pub enum AttributeEntry {
    /// A bare identifier, such as `skip`.
    Flag(String),
    /// `key = value`, with the value's text when it is a string literal.
    KeyValue(String, Option<String>),
    /// `path = value` where the path is not a single identifier.
    InvalidKey,
    /// Anything else.
    Malformed,
}

/// The keys that a `key = "value"` entry may use.
#[derive(PartialEq, Eq, Structural, Clone, Copy, Debug)]
pub enum ConfigKey {
    /// The full dotted name of the Java class.
    ClassName,
    /// The Java package; the class name is the package and the type's name.
    Package,
    /// A closure applied to a field before it is converted.
    Mapping,
    /// The Java class that a field's signature names.
    TargetClass,
    /// Erasure bounds of generic parameters, `T: pkg.Class, U: ...`.
    Bounds,
}

/// Why a set of entries is refused.
#[derive(PartialEq, Eq, Debug)]
pub enum AttributeError {
    /// The key of a `key = value` entry is not an identifier.
    InvalidKey,
    /// The key is none of the known keys.
    UnknownKey(String),
    /// The value of the entry with this key is not a string literal.
    InvalidValue(String),
    /// The entry is neither a flag nor a `key = value` pair.
    Malformed,
}

/// An [`AttributeError`] as a value of the specification.
pub enum AttributeFault {
    InvalidKey,
    UnknownKey(Seq<char>),
    InvalidValue(Seq<char>),
    Malformed,
}

impl View for AttributeError {
    type V = AttributeFault;

    open spec fn view(&self) -> AttributeFault {
        match self {
            AttributeError::InvalidKey => AttributeFault::InvalidKey,
            AttributeError::UnknownKey(k) => AttributeFault::UnknownKey(k@),
            AttributeError::InvalidValue(k) => AttributeFault::InvalidValue(k@),
            AttributeError::Malformed => AttributeFault::Malformed,
        }
    }
}

/// The configuration of an item: its flags, and a value for some keys.
pub struct Config {
    pub flags: Set<Seq<char>>,
    pub values: Map<ConfigKey, Seq<char>>,
}

/// The key that `name` spells.
pub open spec fn key_of(name: Seq<char>) -> Option<ConfigKey> {
    if name == "class_name"@ {
        Some(ConfigKey::ClassName)
    } else if name == "package"@ {
        Some(ConfigKey::Package)
    } else if name == "map"@ {
        Some(ConfigKey::Mapping)
    } else if name == "target_class"@ {
        Some(ConfigKey::TargetClass)
    } else if name == "bounds"@ {
        Some(ConfigKey::Bounds)
    } else {
        None
    }
}

/// The configuration that `entries` give, read in order; a later value of a
/// key replaces an earlier one. The first entry that is refused decides the
/// error.
pub open spec fn parsed(entries: Seq<AttributeEntry>) -> Result<Config, AttributeFault>
    decreases entries.len(),
{
    if entries.len() == 0 {
        Ok(Config { flags: Set::empty(), values: Map::empty() })
    } else {
        match parsed(entries.drop_last()) {
            Err(e) => Err(e),
            Ok(c) => match entries.last() {
                AttributeEntry::Flag(f) => Ok(Config { flags: c.flags.insert(f@), values: c.values }),
                AttributeEntry::KeyValue(k, v) => match key_of(k@) {
                    None => Err(AttributeFault::UnknownKey(k@)),
                    Some(key) => match v {
                        None => Err(AttributeFault::InvalidValue(k@)),
                        Some(v) => Ok(Config { flags: c.flags, values: c.values.insert(key, v@) }),
                    },
                },
                AttributeEntry::InvalidKey => Err(AttributeFault::InvalidKey),
                AttributeEntry::Malformed => Err(AttributeFault::Malformed),
            },
        }
    }
}

/// The parsed configuration of one item.
pub struct JnixAttributes {
    flags: Vec<String>,
    class_name: Option<String>,
    package: Option<String>,
    map: Option<String>,
    target_class: Option<String>,
    bounds: Option<String>,
}

/// The view of an optional string.
pub open spec fn opt_view(o: Option<String>) -> Option<Seq<char>> {
    match o {
        Some(s) => Some(s@),
        None => None,
    }
}

impl JnixAttributes {
    /// The value stored for `key`.
    pub closed spec fn slot(&self, key: ConfigKey) -> Option<String> {
        match key {
            ConfigKey::ClassName => self.class_name,
            ConfigKey::Package => self.package,
            ConfigKey::Mapping => self.map,
            ConfigKey::TargetClass => self.target_class,
            ConfigKey::Bounds => self.bounds,
        }
    }

    /// The configuration that this value holds.
    pub closed spec fn config(&self) -> Config {
        Config {
            flags: Set::new(|f: Seq<char>| exists|i: int| 0 <= i < self.flags@.len() && #[trigger] self.flags@[i]@ == f),
            values: Map::new(|k: ConfigKey| self.slot(k) is Some, |k: ConfigKey| self.slot(k)->Some_0@),
        }
    }

    /// Whether `flag` was given.
    pub open spec fn has(&self, flag: Seq<char>) -> bool {
        self.config().flags.contains(flag)
    }

    /// The value given for `key`.
    pub open spec fn value(&self, key: ConfigKey) -> Option<Seq<char>> {
        if self.config().values.contains_key(key) {
            Some(self.config().values[key])
        } else {
            None
        }
    }

    /// A configuration with no flags and no values.
    pub fn empty() -> (r: Self)
        ensures
            r.config() == (Config { flags: Set::empty(), values: Map::empty() }),
    {
        let r = JnixAttributes {
            flags: Vec::new(),
            class_name: None,
            package: None,
            map: None,
            target_class: None,
            bounds: None,
        };
        assert(r.config().flags =~= Set::empty());
        assert(r.config().values =~= Map::empty());
        r
    }

    fn set_value(&mut self, key: ConfigKey, value: String)
        ensures
            final(self).config() == (Config {
                flags: old(self).config().flags,
                values: old(self).config().values.insert(key, value@),
            }),
    {
        match key {
            ConfigKey::ClassName => self.class_name = Some(value),
            ConfigKey::Package => self.package = Some(value),
            ConfigKey::Mapping => self.map = Some(value),
            ConfigKey::TargetClass => self.target_class = Some(value),
            ConfigKey::Bounds => self.bounds = Some(value),
        }
        assert(self.config().flags =~= old(self).config().flags);
        assert(self.config().values =~= old(self).config().values.insert(key, value@));
    }

    fn add_flag(&mut self, flag: String)
        ensures
            final(self).config() == (Config {
                flags: old(self).config().flags.insert(flag@),
                values: old(self).config().values,
            }),
    {
        let ghost f = flag@;
        self.flags.push(flag);
        assert(self.flags@[self.flags@.len() - 1]@ == f);
        assert forall|g: Seq<char>| self.config().flags.contains(g) == old(self).config().flags.insert(f).contains(g) by {
            if old(self).config().flags.contains(g) {
                let i = choose|i: int| 0 <= i < old(self).flags@.len() && #[trigger] old(self).flags@[i]@ == g;
                assert(self.flags@[i]@ == g);
            }
            if self.config().flags.contains(g) && g != f {
                let i = choose|i: int| 0 <= i < self.flags@.len() && #[trigger] self.flags@[i]@ == g;
                assert(old(self).flags@[i]@ == g);
            }
        }
        assert(self.config().flags =~= old(self).config().flags.insert(f));
        assert(self.config().values =~= old(self).config().values);
    }

    /// Parses the `#[jnix(...)]` entries of one item, in order.
    pub fn new(entries: &Vec<AttributeEntry>) -> (r: Result<Self, AttributeError>)
        ensures
            match r {
                Ok(a) => parsed(entries@) == Ok::<Config, AttributeFault>(a.config()),
                Err(e) => parsed(entries@) == Err::<Config, AttributeFault>(e@),
            },
    {
        let mut result = Self::empty();
        let mut i: usize = 0;
        assert(entries@.subrange(0, 0) =~= Seq::<AttributeEntry>::empty());
        while i < entries.len()
            invariant
                i <= entries.len(),
                parsed(entries@.subrange(0, i as int)) == Ok::<Config, AttributeFault>(result.config()),
            decreases entries.len() - i,
        {
            assert(entries@.subrange(0, i + 1).drop_last() == entries@.subrange(0, i as int));
            match &entries[i] {
                AttributeEntry::Flag(f) => {
                    result.add_flag(to_string(f.as_str()));
                },
                AttributeEntry::KeyValue(k, v) => {
                    match key_from_name(k.as_str()) {
                        None => {
                            proof {
                                lemma_parsed_error_stays(entries@, i as int + 1);
                            }
                            return Err(AttributeError::UnknownKey(to_string(k.as_str())));
                        },
                        Some(key) => match v {
                            None => {
                                proof {
                                    lemma_parsed_error_stays(entries@, i as int + 1);
                                }
                                return Err(AttributeError::InvalidValue(to_string(k.as_str())));
                            },
                            Some(v) => {
                                result.set_value(key, to_string(v.as_str()));
                            },
                        },
                    }
                },
                AttributeEntry::InvalidKey => {
                    proof {
                        lemma_parsed_error_stays(entries@, i as int + 1);
                    }
                    return Err(AttributeError::InvalidKey);
                },
                AttributeEntry::Malformed => {
                    proof {
                        lemma_parsed_error_stays(entries@, i as int + 1);
                    }
                    return Err(AttributeError::Malformed);
                },
            }
            i = i + 1;
        }
        assert(entries@.subrange(0, entries.len() as int) == entries@);
        Ok(result)
    }

    /// Whether `flag` was given.
    pub fn has_flag(&self, flag: &str) -> (r: bool)
        ensures
            r == self.has(flag@),
    {
        let mut i: usize = 0;
        while i < self.flags.len()
            invariant
                i <= self.flags.len(),
                forall|j: int| 0 <= j < i ==> self.flags@[j]@ != flag@,
            decreases self.flags.len() - i,
        {
            if str_eq(self.flags[i].as_str(), flag) {
                return true;
            }
            i = i + 1;
        }
        false
    }

    /// The value given for the key named `key`, if `key` is a known key and a
    /// value was given for it.
    pub fn get_value(&self, key: &str) -> (r: Option<String>)
        ensures
            opt_view(r) == match key_of(key@) {
                Some(k) => self.value(k),
                None => None,
            },
    {
        match key_from_name(key) {
            Some(k) => self.get(k),
            None => None,
        }
    }

    /// The value given for `key`.
    pub fn get(&self, key: ConfigKey) -> (r: Option<String>)
        ensures
            opt_view(r) == self.value(key),
    {
        let slot = match key {
            ConfigKey::ClassName => &self.class_name,
            ConfigKey::Package => &self.package,
            ConfigKey::Mapping => &self.map,
            ConfigKey::TargetClass => &self.target_class,
            ConfigKey::Bounds => &self.bounds,
        };
        let r = match slot {
            Some(s) => Some(to_string(s.as_str())),
            None => None,
        };
        assert(opt_view(r) == opt_view(self.slot(key)));
        r
    }
}

/// Once a prefix of the entries is refused, every longer prefix is refused
/// with the same error.
proof fn lemma_parsed_error_stays(entries: Seq<AttributeEntry>, k: int)
    requires
        0 <= k <= entries.len(),
        parsed(entries.subrange(0, k)) is Err,
    ensures
        parsed(entries) == parsed(entries.subrange(0, k)),
    decreases entries.len() - k,
{
    if k < entries.len() {
        assert(entries.subrange(0, k + 1).drop_last() == entries.subrange(0, k));
        lemma_parsed_error_stays(entries, k + 1);
    } else {
        assert(entries.subrange(0, k) == entries);
    }
}

/// The key that `name` spells.
pub fn key_from_name(name: &str) -> (r: Option<ConfigKey>)
    ensures
        r == key_of(name@),
{
    if str_eq(name, "class_name") {
        Some(ConfigKey::ClassName)
    } else if str_eq(name, "package") {
        Some(ConfigKey::Package)
    } else if str_eq(name, "map") {
        Some(ConfigKey::Mapping)
    } else if str_eq(name, "target_class") {
        Some(ConfigKey::TargetClass)
    } else if str_eq(name, "bounds") {
        Some(ConfigKey::Bounds)
    } else {
        None
    }
}

} // verus!
