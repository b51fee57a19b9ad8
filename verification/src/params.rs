use vstd::prelude::*;

use crate::document::{TomlValue, lookup, parse_toml};
use crate::keyed::KeyedList;
use crate::text::{concat2, concat3, str_equal};

verus! {

/// The map that a list of table entries describes: where a key occurs more
/// than once, the last entry wins.
pub open spec fn table_map(entries: Seq<(String, TomlValue)>) -> Map<Seq<char>, TomlValue> {
    Map::new(|k: Seq<char>| lookup(entries, k) is Some, |k: Seq<char>| lookup(entries, k)->0)
}

/// Appending an entry stores its value under its key.
pub proof fn lemma_table_map_push(entries: Seq<(String, TomlValue)>, e: (String, TomlValue))
    ensures
        table_map(entries.push(e)) == table_map(entries).insert(e.0@, e.1),
{
    let es = entries.push(e);
    assert(es.drop_last() =~= entries);
    assert(table_map(es) =~= table_map(entries).insert(e.0@, e.1));
}

/// What went wrong when reading a parameter.
#[derive(Debug, Clone, Copy, PartialEq, Eq, Structural)]
pub enum ParamErrorKind {
    Missing,
    NotInteger,
    NotFloat,
    NotBool,
    NotString,
    NotU64,
    NotUsize,
}

/// Error from a typed parameter getter: the key and what went wrong.
#[derive(Debug, Clone)]
pub struct ParamError {
    pub key: String,
    pub kind: ParamErrorKind,
}

/// Error from loading a `[params]` table.
#[derive(Debug, Clone)]
pub enum ParamsLoadError {
    /// The text is not valid TOML; the parser's message.
    Parse { cause: String },
    /// The document has no `params` key.
    MissingTable,
    /// `params` is not a table.
    NotTable,
}

/// The text of a parameter error, for a key.
pub open spec fn param_error_text(kind: ParamErrorKind, key: Seq<char>) -> Seq<char> {
    match kind {
        ParamErrorKind::Missing => "missing param: "@ + key,
        ParamErrorKind::NotInteger => "param '"@ + key + "' is not an integer"@,
        ParamErrorKind::NotFloat => "param '"@ + key + "' is not a float"@,
        ParamErrorKind::NotBool => "param '"@ + key + "' is not a bool"@,
        ParamErrorKind::NotString => "param '"@ + key + "' is not a string"@,
        ParamErrorKind::NotU64 => "param '"@ + key + "' cannot be converted to u64"@,
        ParamErrorKind::NotUsize => "param '"@ + key + "' cannot be converted to usize"@,
    }
}

impl ParamError {
    /// Human-readable description.
    pub fn message(&self) -> (r: String)
        ensures
            r@ == param_error_text(self.kind, self.key@),
    {
        let key = self.key.as_str();
        match self.kind {
            ParamErrorKind::Missing => concat2("missing param: ", key),
            ParamErrorKind::NotInteger => concat3("param '", key, "' is not an integer"),
            ParamErrorKind::NotFloat => concat3("param '", key, "' is not a float"),
            ParamErrorKind::NotBool => concat3("param '", key, "' is not a bool"),
            ParamErrorKind::NotString => concat3("param '", key, "' is not a string"),
            ParamErrorKind::NotU64 => concat3("param '", key, "' cannot be converted to u64"),
            ParamErrorKind::NotUsize => concat3(
                "param '",
                key,
                "' cannot be converted to usize",
            ),
        }
    }
}

/// The text of a load error.
pub open spec fn load_error_text(e: ParamsLoadError) -> Seq<char> {
    match e {
        ParamsLoadError::Parse { .. } => "failed to parse TOML"@,
        ParamsLoadError::MissingTable => "TOML is missing a [params] table"@,
        ParamsLoadError::NotTable => "[params] must be a TOML table"@,
    }
}

impl ParamsLoadError {
    /// Human-readable description.
    pub fn message(&self) -> (r: String)
        ensures
            r@ == load_error_text(*self),
    {
        match self {
            ParamsLoadError::Parse { .. } => "failed to parse TOML".to_owned(),
            ParamsLoadError::MissingTable => "TOML is missing a [params] table".to_owned(),
            ParamsLoadError::NotTable => "[params] must be a TOML table".to_owned(),
        }
    }
}

/// Read-only runtime parameters for a single scenario run.
///
/// Loaded from a flat `[params]` TOML table. Values keep their TOML types
/// and are read through typed getters.
#[derive(Debug)]
pub struct Params {
    inner: KeyedList<TomlValue>,
}

/// The integer getter's outcome on a parameter map.
pub open spec fn param_i64(m: Map<Seq<char>, TomlValue>, key: Seq<char>) -> Result<
    i64,
    ParamErrorKind,
> {
    if !m.contains_key(key) {
        Err(ParamErrorKind::Missing)
    } else {
        match m[key] {
            TomlValue::Integer(i) => Ok(i),
            _ => Err(ParamErrorKind::NotInteger),
        }
    }
}

/// The `u64` getter's outcome on a parameter map.
pub open spec fn param_u64(m: Map<Seq<char>, TomlValue>, key: Seq<char>) -> Result<
    u64,
    ParamErrorKind,
> {
    match param_i64(m, key) {
        Ok(i) => if i >= 0 {
            Ok(i as u64)
        } else {
            Err(ParamErrorKind::NotU64)
        },
        Err(k) => Err(k),
    }
}

/// The `usize` getter's outcome on a parameter map.
pub open spec fn param_usize(m: Map<Seq<char>, TomlValue>, key: Seq<char>) -> Result<
    usize,
    ParamErrorKind,
> {
    match param_i64(m, key) {
        Ok(i) => if 0 <= i <= usize::MAX {
            Ok(i as usize)
        } else {
            Err(ParamErrorKind::NotUsize)
        },
        Err(k) => Err(k),
    }
}

/// The float getter's outcome (as IEEE-754 bits) on a parameter map.
pub open spec fn param_float_bits(m: Map<Seq<char>, TomlValue>, key: Seq<char>) -> Result<
    u64,
    ParamErrorKind,
> {
    if !m.contains_key(key) {
        Err(ParamErrorKind::Missing)
    } else {
        match m[key] {
            TomlValue::Float(bits) => Ok(bits),
            _ => Err(ParamErrorKind::NotFloat),
        }
    }
}

/// The bool getter's outcome on a parameter map.
pub open spec fn param_bool(m: Map<Seq<char>, TomlValue>, key: Seq<char>) -> Result<
    bool,
    ParamErrorKind,
> {
    if !m.contains_key(key) {
        Err(ParamErrorKind::Missing)
    } else {
        match m[key] {
            TomlValue::Boolean(b) => Ok(b),
            _ => Err(ParamErrorKind::NotBool),
        }
    }
}

/// The string getter's outcome on a parameter map.
pub open spec fn param_str(m: Map<Seq<char>, TomlValue>, key: Seq<char>) -> Result<
    Seq<char>,
    ParamErrorKind,
> {
    if !m.contains_key(key) {
        Err(ParamErrorKind::Missing)
    } else {
        match m[key] {
            TomlValue::String(s) => Ok(s@),
            _ => Err(ParamErrorKind::NotString),
        }
    }
}

/// The error kind of a getter's result, or its value.
pub open spec fn outcome<T>(r: Result<T, ParamError>) -> Result<T, ParamErrorKind> {
    match r {
        Ok(v) => Ok(v),
        Err(e) => Err(e.kind),
    }
}

/// An error from a getter names the key it was asked for.
pub open spec fn names_key<T>(r: Result<T, ParamError>, key: Seq<char>) -> bool {
    r matches Err(e) ==> e.key@ == key
}

/// What `Params::from_document` gives for a parsed document.
pub open spec fn params_of_document(doc: TomlValue) -> Result<
    Map<Seq<char>, TomlValue>,
    ParamsLoadError,
> {
    match doc {
        TomlValue::Table(root) => match lookup(root@, "params"@) {
            None => Err(ParamsLoadError::MissingTable),
            Some(TomlValue::Table(entries)) => Ok(table_map(entries@)),
            Some(_) => Err(ParamsLoadError::NotTable),
        },
        _ => Err(ParamsLoadError::MissingTable),
    }
}

/// Index of the last entry with key `key`.
pub fn last_position(entries: &Vec<(String, TomlValue)>, key: &str) -> (r: Option<usize>)
    ensures
        r is Some <==> lookup(entries@, key@) is Some,
        r matches Some(i) ==> i < entries@.len() && entries@[i as int].0@ == key@ && lookup(
            entries@,
            key@,
        ) == Some(entries@[i as int].1),
{
    let mut i = entries.len();
    assert(entries@.take(i as int) =~= entries@);
    while i > 0
        invariant
            i <= entries@.len(),
            lookup(entries@, key@) == lookup(entries@.take(i as int), key@),
        decreases i,
    {
        assert(entries@.take(i as int).drop_last() =~= entries@.take(i - 1));
        if str_equal(entries[i - 1].0.as_str(), key) {
            return Some(i - 1);
        }
        i = i - 1;
    }
    None
}

impl Params {
    /// The parameters as a map from keys to values.
    pub closed spec fn map(self) -> Map<Seq<char>, TomlValue> {
        self.inner.as_map()
    }

    /// The keys, in the order of their entries.
    pub closed spec fn keys(self) -> Seq<Seq<char>> {
        self.inner.keys()
    }

    /// Every value is an instance of this invariant: the underlying list is
    /// well formed (no key twice).
    #[verifier::type_invariant]
    spec fn inv(self) -> bool {
        self.inner.wf()
    }

    /// An empty parameter set.
    pub fn empty() -> (r: Self)
        ensures
            r.map() == Map::<Seq<char>, TomlValue>::empty(),
    {
        Params { inner: KeyedList::new() }
    }

    /// Parameters from flat table entries; a key given twice keeps its last
    /// value.
    pub fn from_flat_entries(entries: Vec<(String, TomlValue)>) -> (r: Self)
        ensures
            r.map() == table_map(entries@),
    {
        let ghost all = entries@;
        assert(all.len() == entries.len());
        let mut inner: KeyedList<TomlValue> = KeyedList::new();
        let mut rest = entries;
        let mut taken: usize = 0;
        proof {
            assert(all.take(0) =~= Seq::<(String, TomlValue)>::empty());
            assert(table_map(all.take(0)) =~= Map::<Seq<char>, TomlValue>::empty());
        }
        while rest.len() > 0
            invariant
                inner.wf(),
                taken + rest@.len() == all.len(),
                all.len() <= usize::MAX,
                rest@ == all.skip(taken as int),
                inner.as_map() == table_map(all.take(taken as int)),
            decreases rest@.len(),
        {
            let e = rest.remove(0);
            proof {
                assert(e == all[taken as int]);
                assert(all.take(taken + 1) =~= all.take(taken as int).push(e));
                lemma_table_map_push(all.take(taken as int), e);
                assert(rest@ =~= all.skip(taken + 1));
            }
            inner.insert(e.0, e.1);
            taken = taken + 1;
        }
        assert(all.take(taken as int) =~= all);
        Params { inner }
    }

    /// Parameters from a parsed TOML document holding a flat `[params]`
    /// table.
    pub fn from_document(doc: TomlValue) -> (r: Result<Self, ParamsLoadError>)
        ensures
            match params_of_document(doc) {
                Ok(m) => r matches Ok(p) && p.map() == m,
                Err(e) => r matches Err(e2) && e2 == e,
            },
    {
        match doc {
            TomlValue::Table(root) => {
                let mut root = root;
                match last_position(&root, "params") {
                    None => Err(ParamsLoadError::MissingTable),
                    Some(i) => {
                        let (_, value) = root.remove(i);
                        match value {
                            TomlValue::Table(entries) => Ok(Params::from_flat_entries(entries)),
                            _ => Err(ParamsLoadError::NotTable),
                        }
                    },
                }
            },
            _ => Err(ParamsLoadError::MissingTable),
        }
    }

    /// Parse parameters from a TOML document containing a flat `[params]`
    /// table.
    pub fn from_toml_str(s: &str) -> (r: Result<Self, ParamsLoadError>)
        ensures
            match crate::document::toml_document(s@) {
                None => r matches Err(ParamsLoadError::Parse { .. }),
                Some(doc) => match params_of_document(doc) {
                    Ok(m) => r matches Ok(p) && p.map() == m,
                    Err(e) => r matches Err(e2) && e2 == e,
                },
            },
    {
        match parse_toml(s) {
            Ok(doc) => Params::from_document(doc),
            Err(cause) => Err(ParamsLoadError::Parse { cause }),
        }
    }

    pub fn contains(&self, key: &str) -> (r: bool)
        ensures
            r == self.map().contains_key(key@),
    {
        proof {
            use_type_invariant(self);
        }
        self.inner.contains_key(key)
    }

    fn require(&self, key: &str) -> (r: Result<&TomlValue, ParamError>)
        ensures
            r is Ok <==> self.map().contains_key(key@),
            r matches Ok(v) ==> *v == self.map()[key@],
            r matches Err(e) ==> e.key@ == key@ && e.kind == ParamErrorKind::Missing,
    {
        proof {
            use_type_invariant(self);
        }
        match self.inner.get(key) {
            Some(v) => Ok(v),
            None => Err(ParamError { key: key.to_owned(), kind: ParamErrorKind::Missing }),
        }
    }

    pub fn get_i64(&self, key: &str) -> (r: Result<i64, ParamError>)
        ensures
            outcome(r) == param_i64(self.map(), key@),
            names_key(r, key@),
    {
        let v = self.require(key)?;
        match v {
            TomlValue::Integer(i) => Ok(*i),
            _ => Err(ParamError { key: key.to_owned(), kind: ParamErrorKind::NotInteger }),
        }
    }

    pub fn get_u64(&self, key: &str) -> (r: Result<u64, ParamError>)
        ensures
            outcome(r) == param_u64(self.map(), key@),
            names_key(r, key@),
    {
        let v = self.get_i64(key)?;
        if v >= 0 {
            Ok(v as u64)
        } else {
            Err(ParamError { key: key.to_owned(), kind: ParamErrorKind::NotU64 })
        }
    }

    pub fn get_usize(&self, key: &str) -> (r: Result<usize, ParamError>)
        ensures
            outcome(r) == param_usize(self.map(), key@),
            names_key(r, key@),
    {
        let v = self.get_i64(key)?;
        if v >= 0 && (v as u64) <= (usize::MAX as u64) {
            Ok(v as usize)
        } else {
            Err(ParamError { key: key.to_owned(), kind: ParamErrorKind::NotUsize })
        }
    }

    /// A float parameter, as its IEEE-754 bit pattern (`f64::from_bits`
    /// gives the value).
    pub fn get_f64_bits(&self, key: &str) -> (r: Result<u64, ParamError>)
        ensures
            outcome(r) == param_float_bits(self.map(), key@),
            names_key(r, key@),
    {
        let v = self.require(key)?;
        match v {
            TomlValue::Float(bits) => Ok(*bits),
            _ => Err(ParamError { key: key.to_owned(), kind: ParamErrorKind::NotFloat }),
        }
    }

    pub fn get_bool(&self, key: &str) -> (r: Result<bool, ParamError>)
        ensures
            outcome(r) == param_bool(self.map(), key@),
            names_key(r, key@),
    {
        let v = self.require(key)?;
        match v {
            TomlValue::Boolean(b) => Ok(*b),
            _ => Err(ParamError { key: key.to_owned(), kind: ParamErrorKind::NotBool }),
        }
    }

    pub fn get_str(&self, key: &str) -> (r: Result<&str, ParamError>)
        ensures
            match r {
                Ok(s) => param_str(self.map(), key@) == Ok::<Seq<char>, ParamErrorKind>(s@),
                Err(e) => param_str(self.map(), key@) == Err::<Seq<char>, ParamErrorKind>(
                    e.kind,
                ) && e.key@ == key@,
            },
    {
        let v = self.require(key)?;
        match v {
            TomlValue::String(s) => Ok(s.as_str()),
            _ => Err(ParamError { key: key.to_owned(), kind: ParamErrorKind::NotString }),
        }
    }
}

impl Default for Params {
    fn default() -> (r: Self)
        ensures
            r.map() == Map::<Seq<char>, TomlValue>::empty(),
    {
        Params::empty()
    }
}

/// The unsigned getters take an integer parameter as it is stored: every
/// non-negative integer, zero included, reads back as itself through
/// `get_u64`, and only a negative one is refused (`NotU64`); `get_usize`
/// likewise refuses exactly the integers outside `0..=usize::MAX`.
pub proof fn lemma_unsigned_getters(m: Map<Seq<char>, TomlValue>, key: Seq<char>, i: i64)
    requires
        m.contains_key(key),
        m[key] == TomlValue::Integer(i),
    ensures
        param_i64(m, key) == Ok::<i64, ParamErrorKind>(i),
        i >= 0 ==> param_u64(m, key) == Ok::<u64, ParamErrorKind>(i as u64) && i == (i as u64),
        i < 0 ==> param_u64(m, key) == Err::<u64, ParamErrorKind>(ParamErrorKind::NotU64),
        0 <= i <= usize::MAX ==> param_usize(m, key) == Ok::<usize, ParamErrorKind>(i as usize)
            && i == (i as usize),
        !(0 <= i <= usize::MAX) ==> param_usize(m, key) == Err::<usize, ParamErrorKind>(
            ParamErrorKind::NotUsize,
        ),
{
}

} // verus!
