use vstd::prelude::*;

use crate::document::{TomlValue, lookup, parse_toml, toml_document};
use crate::params::{Params, last_position, table_map};
use crate::text::{concat3, decimal_text, index_text, str_equal};

verus! {

/// One run definition: its optional label plus its runtime params.
#[derive(Debug)]
pub struct RunConfig {
    pub name: Option<String>,
    pub params: Params,
}

/// An ordered list of runs parsed from a TOML `[[runs]]` document.
#[derive(Debug)]
pub struct RunSuite {
    pub runs: Vec<RunConfig>,
}

/// Why a run suite could not be loaded.
#[derive(Debug, Clone)]
pub enum SuiteError {
    /// The text is not valid TOML; the parser's message.
    Parse { cause: String },
    /// The document has no `runs` key.
    MissingRuns,
    /// `runs` is not an array.
    NotArray,
    /// `runs` is an empty array.
    Empty,
    /// Entry `index` of `runs` is not a table.
    EntryNotTable { index: usize },
    /// Entry `index` has a `name` that is not a string.
    NameNotString { index: usize },
    /// Entry `index` holds a table under `key`.
    NestedTable { index: usize, key: String },
}

/// The text of a suite error.
pub open spec fn suite_error_text(e: SuiteError) -> Seq<char> {
    match e {
        SuiteError::Parse { .. } => "failed to parse TOML"@,
        SuiteError::MissingRuns => "TOML is missing a 'runs' array"@,
        SuiteError::NotArray => "'runs' must be an array of tables"@,
        SuiteError::Empty => "'runs' is empty \u{2014} at least one [[runs]] entry is required"@,
        SuiteError::EntryNotTable { index } => "runs["@ + decimal_text(index)
            + "] must be a table"@,
        SuiteError::NameNotString { index } => "runs["@ + decimal_text(index)
            + "].name must be a string"@,
        SuiteError::NestedTable { index, key } => "runs["@ + decimal_text(index) + "]."@ + key@
            + " is a nested table; only flat keys are supported"@,
    }
}

impl SuiteError {
    /// Human-readable description.
    pub fn message(&self) -> (r: String)
        ensures
            r@ == suite_error_text(*self),
    {
        match self {
            SuiteError::Parse { .. } => "failed to parse TOML".to_owned(),
            SuiteError::MissingRuns => "TOML is missing a 'runs' array".to_owned(),
            SuiteError::NotArray => "'runs' must be an array of tables".to_owned(),
            SuiteError::Empty => "'runs' is empty \u{2014} at least one [[runs]] entry is required".to_owned(),
            SuiteError::EntryNotTable { index } => {
                let n = index_text(*index);
                concat3("runs[", n.as_str(), "] must be a table")
            },
            SuiteError::NameNotString { index } => {
                let n = index_text(*index);
                concat3("runs[", n.as_str(), "].name must be a string")
            },
            SuiteError::NestedTable { index, key } => {
                let n = index_text(*index);
                let head = concat3("runs[", n.as_str(), "].");
                concat3(
                    head.as_str(),
                    key.as_str(),
                    " is a nested table; only flat keys are supported",
                )
            },
        }
    }
}

/// Scan of one run table's entries from the first to the last: the `name`
/// entry gives the label (it must be a string), every other entry must not
/// be a table and becomes a parameter. The first offending entry decides
/// the error.
pub open spec fn scan_run_entries(index: usize, es: Seq<(String, TomlValue)>) -> Result<
    (Option<String>, Seq<(String, TomlValue)>),
    SuiteError,
>
    decreases es.len(),
{
    if es.len() == 0 {
        Ok((None, Seq::empty()))
    } else {
        match scan_run_entries(index, es.drop_last()) {
            Err(e) => Err(e),
            Ok((name, ps)) => {
                let (k, v) = es.last();
                if k@ == "name"@ {
                    match v {
                        TomlValue::String(s) => Ok((Some(s), ps)),
                        _ => Err(SuiteError::NameNotString { index }),
                    }
                } else if v is Table {
                    Err(SuiteError::NestedTable { index, key: k })
                } else {
                    Ok((name, ps.push((k, v))))
                }
            },
        }
    }
}

/// What one entry of `runs` becomes: its label and its parameter map.
pub open spec fn run_entry_spec(index: usize, v: TomlValue) -> Result<
    (Option<String>, Map<Seq<char>, TomlValue>),
    SuiteError,
> {
    match v {
        TomlValue::Table(es) => match scan_run_entries(index, es@) {
            Ok((name, ps)) => Ok((name, table_map(ps))),
            Err(e) => Err(e),
        },
        _ => Err(SuiteError::EntryNotTable { index }),
    }
}

/// What the entries of `runs` become, in order; the first failing entry
/// decides the error.
pub open spec fn runs_spec(items: Seq<TomlValue>) -> Result<
    Seq<(Option<String>, Map<Seq<char>, TomlValue>)>,
    SuiteError,
>
    decreases items.len(),
{
    if items.len() == 0 {
        Ok(Seq::empty())
    } else {
        match runs_spec(items.drop_last()) {
            Err(e) => Err(e),
            Ok(done) => match run_entry_spec((items.len() - 1) as usize, items.last()) {
                Err(e) => Err(e),
                Ok(c) => Ok(done.push(c)),
            },
        }
    }
}

/// What `RunSuite::from_document` gives for a parsed document.
pub open spec fn suite_of_document(doc: TomlValue) -> Result<
    Seq<(Option<String>, Map<Seq<char>, TomlValue>)>,
    SuiteError,
> {
    match doc {
        TomlValue::Table(root) => match lookup(root@, "runs"@) {
            None => Err(SuiteError::MissingRuns),
            Some(TomlValue::Array(items)) => if items@.len() == 0 {
                Err(SuiteError::Empty)
            } else {
                runs_spec(items@)
            },
            Some(_) => Err(SuiteError::NotArray),
        },
        _ => Err(SuiteError::MissingRuns),
    }
}

/// The runs of a suite match a specification, entry by entry.
pub open spec fn runs_match(
    runs: Seq<RunConfig>,
    want: Seq<(Option<String>, Map<Seq<char>, TomlValue>)>,
) -> bool {
    &&& runs.len() == want.len()
    &&& forall|i: int|
        0 <= i < runs.len() ==> {
            &&& (#[trigger] runs[i]).name == want[i].0
            &&& runs[i].params.map() == want[i].1
        }
}

/// Once a prefix of a run table fails the scan, the whole table fails the
/// same way.
proof fn lemma_scan_error_sticks(index: usize, es: Seq<(String, TomlValue)>, k: int)
    requires
        0 <= k <= es.len(),
        scan_run_entries(index, es.take(k)) is Err,
    ensures
        scan_run_entries(index, es) == scan_run_entries(index, es.take(k)),
    decreases es.len() - k,
{
    if k == es.len() {
        assert(es.take(k) =~= es);
    } else {
        assert(es.take(k + 1).drop_last() =~= es.take(k));
        lemma_scan_error_sticks(index, es, k + 1);
    }
}

/// Once a prefix of `runs` fails, the whole array fails the same way.
proof fn lemma_runs_error_sticks(items: Seq<TomlValue>, k: int)
    requires
        0 <= k <= items.len(),
        runs_spec(items.take(k)) is Err,
    ensures
        runs_spec(items) == runs_spec(items.take(k)),
    decreases items.len() - k,
{
    if k == items.len() {
        assert(items.take(k) =~= items);
    } else {
        assert(items.take(k + 1).drop_last() =~= items.take(k));
        lemma_runs_error_sticks(items, k + 1);
    }
}

/// The label a run table gives: the string of its last `name` entry, if it
/// has one.
pub open spec fn name_label(es: Seq<(String, TomlValue)>) -> Option<String> {
    match lookup(es, "name"@) {
        Some(TomlValue::String(s)) => Some(s),
        _ => None,
    }
}

/// A scan that succeeds keeps every entry but `name`: its parameters give
/// every other key the value of the key's last entry, and hold no `name`.
proof fn lemma_scan_keeps_entries(index: usize, es: Seq<(String, TomlValue)>)
    requires
        scan_run_entries(index, es) is Ok,
    ensures
        forall|k: Seq<char>|
            k != "name"@ ==> #[trigger] lookup(scan_run_entries(index, es)->Ok_0.1, k) == lookup(
                es,
                k,
            ),
        lookup(scan_run_entries(index, es)->Ok_0.1, "name"@) is None,
        scan_run_entries(index, es)->Ok_0.0 == name_label(es),
    decreases es.len(),
{
    if es.len() > 0 {
        let es0 = es.drop_last();
        lemma_scan_keeps_entries(index, es0);
        let (name0, ps0) = scan_run_entries(index, es0)->Ok_0;
        let (k, v) = es.last();
        let ps = scan_run_entries(index, es)->Ok_0.1;
        if k@ == "name"@ {
            assert(ps == ps0);
            assert forall|k2: Seq<char>| k2 != "name"@ implies #[trigger] lookup(ps, k2) == lookup(
                es,
                k2,
            ) by {
                assert(lookup(es, k2) == lookup(es0, k2));
            }
        } else {
            assert(ps == ps0.push((k, v)));
            assert(ps.drop_last() =~= ps0);
            assert(lookup(es, "name"@) == lookup(es0, "name"@));
            assert(lookup(ps, "name"@) == lookup(ps0, "name"@));
            assert forall|k2: Seq<char>| k2 != "name"@ implies #[trigger] lookup(ps, k2) == lookup(
                es,
                k2,
            ) by {
                if k2 != k@ {
                    assert(lookup(es, k2) == lookup(es0, k2));
                    assert(lookup(ps, k2) == lookup(ps0, k2));
                }
            }
        }
    }
}

/// A run table that loads keeps every entry as a parameter except `name`,
/// whichever order the entries come in: each other key holds the value of
/// its last entry, and `name` only sets the label (the string of its last
/// entry), never a parameter.
pub proof fn lemma_run_entry_keeps_params(index: usize, es: Vec<(String, TomlValue)>)
    requires
        run_entry_spec(index, TomlValue::Table(es)) is Ok,
    ensures
        ({
            let (label, m) = run_entry_spec(index, TomlValue::Table(es))->Ok_0;
            &&& label == name_label(es@)
            &&& !m.contains_key("name"@)
            &&& forall|k: Seq<char>|
                k != "name"@ ==> (#[trigger] m.contains_key(k) <==> lookup(es@, k) is Some)
            &&& forall|k: Seq<char>|
                k != "name"@ && #[trigger] m.contains_key(k) ==> lookup(es@, k) == Some(m[k])
        }),
{
    lemma_scan_keeps_entries(index, es@);
    let ps = scan_run_entries(index, es@)->Ok_0.1;
    let m = run_entry_spec(index, TomlValue::Table(es))->Ok_0.1;
    assert(m == table_map(ps));
    assert forall|k: Seq<char>| k != "name"@ implies (#[trigger] m.contains_key(k) <==> lookup(
        es@,
        k,
    ) is Some) by {
        assert(lookup(ps, k) == lookup(es@, k));
    }
    assert forall|k: Seq<char>| k != "name"@ && #[trigger] m.contains_key(k) implies lookup(es@, k)
        == Some(m[k]) by {
        assert(lookup(ps, k) == lookup(es@, k));
    }
}

/// Parse one entry of `runs`.
fn parse_run_entry(index: usize, entry: TomlValue) -> (r: Result<RunConfig, SuiteError>)
    ensures
        match run_entry_spec(index, entry) {
            Ok((name, m)) => r matches Ok(c) && c.name == name && c.params.map()
                == m,
            Err(e) => r matches Err(e2) && e2 == e,
        },
{
    let ghost entries_copy: Vec<(String, TomlValue)>;
    let entries = match entry {
        TomlValue::Table(entries) => {
            proof {
                entries_copy = entries;
            }
            entries
        },
        _ => {
            return Err(SuiteError::EntryNotTable { index });
        },
    };
    let ghost all = entries@;
    assert(all.len() == entries.len());
    let mut name: Option<String> = None;
    let mut flat: Vec<(String, TomlValue)> = Vec::new();
    let mut rest = entries;
    let mut taken: usize = 0;
    assert(all.take(0) =~= Seq::<(String, TomlValue)>::empty());
    while rest.len() > 0
        invariant
            entry == TomlValue::Table(entries_copy),
            entries_copy@ == all,
            taken + rest@.len() == all.len(),
            all.len() <= usize::MAX,
            rest@ == all.skip(taken as int),
            scan_run_entries(index, all.take(taken as int)) == Ok::<
                (Option<String>, Seq<(String, TomlValue)>),
                SuiteError,
            >((name, flat@)),
        decreases rest@.len(),
    {
        let (k, v) = rest.remove(0);
        proof {
            assert((k, v) == all[taken as int]);
            assert(all.take(taken + 1).drop_last() =~= all.take(taken as int));
            assert(all.take(taken + 1).last() == (k, v));
            assert(rest@ =~= all.skip(taken + 1));
        }
        if str_equal(k.as_str(), "name") {
            match v {
                TomlValue::String(s) => {
                    name = Some(s);
                },
                _ => {
                    proof {
                        assert(scan_run_entries(index, all.take(taken + 1)) == Err::<
                            (Option<String>, Seq<(String, TomlValue)>),
                            SuiteError,
                        >(SuiteError::NameNotString { index }));
                        lemma_scan_error_sticks(index, all, taken + 1);
                    }
                    return Err(SuiteError::NameNotString { index });
                },
            }
        } else {
            match v {
                TomlValue::Table(_) => {
                    proof {
                        lemma_scan_error_sticks(index, all, taken + 1);
                    }
                    return Err(SuiteError::NestedTable { index, key: k });
                },
                _ => {
                    flat.push((k, v));
                },
            }
        }
        taken = taken + 1;
    }
    assert(all.take(taken as int) =~= all);
    let params = Params::from_flat_entries(flat);
    Ok(RunConfig { name, params })
}

impl RunSuite {
    /// A suite from a parsed TOML document with top-level `[[runs]]`
    /// entries. Each entry becomes a [`RunConfig`]: `name` (if present) is
    /// the run label and every other flat key is kept as a parameter.
    pub fn from_document(doc: TomlValue) -> (r: Result<Self, SuiteError>)
        ensures
            match suite_of_document(doc) {
                Ok(want) => r matches Ok(s) && runs_match(s.runs@, want),
                Err(e) => r matches Err(e2) && e2 == e,
            },
    {
        let root = match doc {
            TomlValue::Table(root) => root,
            _ => {
                return Err(SuiteError::MissingRuns);
            },
        };
        let mut root = root;
        let items = match last_position(&root, "runs") {
            None => {
                return Err(SuiteError::MissingRuns);
            },
            Some(i) => {
                let (_, value) = root.remove(i);
                match value {
                    TomlValue::Array(items) => items,
                    _ => {
                        return Err(SuiteError::NotArray);
                    },
                }
            },
        };
        if items.len() == 0 {
            return Err(SuiteError::Empty);
        }
        let ghost all = items@;
        assert(all.len() == items.len());
        let mut runs: Vec<RunConfig> = Vec::new();
        let mut rest = items;
        let mut taken: usize = 0;
        assert(all.take(0) =~= Seq::<TomlValue>::empty());
        while rest.len() > 0
            invariant
                suite_of_document(doc) == runs_spec(all),
                taken + rest@.len() == all.len(),
                all.len() <= usize::MAX,
                rest@ == all.skip(taken as int),
                runs_spec(all.take(taken as int)) matches Ok(done) && runs_match(runs@, done),
            decreases rest@.len(),
        {
            let item = rest.remove(0);
            proof {
                assert(item == all[taken as int]);
                assert(all.take(taken + 1).drop_last() =~= all.take(taken as int));
                assert(all.take(taken + 1).last() == item);
                assert(rest@ =~= all.skip(taken + 1));
            }
            let ghost done = runs_spec(all.take(taken as int))->Ok_0;
            let config = match parse_run_entry(taken, item) {
                Ok(c) => c,
                Err(e) => {
                    proof {
                        lemma_runs_error_sticks(all, taken + 1);
                    }
                    return Err(e);
                },
            };
            runs.push(config);
            proof {
                let want = runs_spec(all.take(taken + 1))->Ok_0;
                assert(want == done.push(run_entry_spec(taken, item)->Ok_0));
                assert forall|i: int| 0 <= i < runs@.len() implies {
                    &&& (#[trigger] runs@[i]).name == want[i].0
                    &&& runs@[i].params.map() == want[i].1
                } by {}
            }
            taken = taken + 1;
        }
        assert(all.take(taken as int) =~= all);
        Ok(RunSuite { runs })
    }

    /// Parse a suite from TOML text with top-level `[[runs]]` entries.
    pub fn from_toml_str(s: &str) -> (r: Result<Self, SuiteError>)
        ensures
            match toml_document(s@) {
                None => r matches Err(SuiteError::Parse { .. }),
                Some(doc) => match suite_of_document(doc) {
                    Ok(want) => r matches Ok(suite) && runs_match(suite.runs@, want),
                    Err(e) => r matches Err(e2) && e2 == e,
                },
            },
    {
        match parse_toml(s) {
            Ok(doc) => RunSuite::from_document(doc),
            Err(cause) => Err(SuiteError::Parse { cause }),
        }
    }
}

} // verus!
