//! The configuration store: a `ConfigurationBase` is one persisted document
//! of typed properties, and the `ConfigurationRegistry` is the in-memory
//! index of all loaded bases, keyed by hierarchical path.
//!
//! Persistence is write-through at the caller: every mutating operation
//! returns with the in-memory state final, and the caller writes the
//! affected document back to its backing file before answering.

use crate::http::HttpError;
use crate::strmap::{map_of, StringMap};
use crate::text::{ends_with, spec_ends_with, spec_starts_with, starts_with};
use crate::value::Value;
use vstd::prelude::*;
use vstd::string::*;

verus! {

/// The key view / value pairs of an entry list.
pub open spec fn entry_views(s: Seq<(String, Value)>) -> Seq<(Seq<char>, Value)> {
    s.map_values(|e: (String, Value)| (e.0@, e.1))
}

/// One configuration document: an ordered mapping of string keys to typed
/// values, identified by the path of its backing file.
#[derive(Debug)]
pub struct ConfigurationBase {
    path: String,
    properties: StringMap<Value>,
}

impl ConfigurationBase {
    pub closed spec fn wf(self) -> bool {
        self.properties.wf()
    }

    /// The abstract property mapping.
    pub closed spec fn props(self) -> Map<Seq<char>, Value> {
        self.properties@
    }

    /// The properties as key/value pairs in ascending key order.
    pub closed spec fn prop_entries(self) -> Seq<(Seq<char>, Value)> {
        self.properties.entries_seq()
    }

    pub closed spec fn num_properties(self) -> nat {
        self.properties.num_entries()
    }

    pub closed spec fn spec_path(self) -> Seq<char> {
        self.path@
    }

    /// Round trip through the entry list: a well-formed document is
    /// exactly the mapping of its own entries, so rebuilding a document
    /// from the entries that were written out reproduces its properties,
    /// provided the persisted form carries the entry list unchanged.
    pub proof fn lemma_entries_round_trip(self)
        requires
            self.wf(),
        ensures
            map_of(self.prop_entries()) == self.props(),
    {
    }

    /// Creates an empty document for the given backing path.
    pub fn new(path: &str) -> (r: ConfigurationBase)
        ensures
            r.wf(),
            r.spec_path() == path@,
            r.props() == Map::<Seq<char>, Value>::empty(),
            r.num_properties() == 0,
    {
        ConfigurationBase { path: path.to_owned(), properties: StringMap::new() }
    }

    /// Builds a document from parsed key/value entries; a key that occurs
    /// twice keeps its later value.
    #[verifier::loop_isolation(false)]
    pub fn from_entries(path: &str, entries: Vec<(String, Value)>) -> (r: ConfigurationBase)
        ensures
            r.wf(),
            r.spec_path() == path@,
            r.props() == map_of(entry_views(entries@)),
    {
        let ghost orig = entries@;
        let mut entries = entries;
        let mut properties: StringMap<Value> = StringMap::new();
        let ghost mut processed: int = 0;
        proof {
            assert(entries@ =~= orig.skip(0));
            assert(entry_views(orig.take(0)) =~= Seq::<(Seq<char>, Value)>::empty());
        }
        while entries.len() > 0
            invariant
                0 <= processed <= orig.len(),
                entries@ == orig.skip(processed),
                properties.wf(),
                properties@ == map_of(entry_views(orig.take(processed))),
            decreases entries@.len(),
        {
            let e = entries.remove(0);
            proof {
                assert(e == orig[processed]);
                assert(entries@ =~= orig.skip(processed + 1));
                let pre = orig.take(processed);
                let now = orig.take(processed + 1);
                assert(entry_views(now).drop_last() =~= entry_views(pre));
                assert(entry_views(now).last() == (orig[processed].0@, orig[processed].1));
            }
            properties.insert(e.0, e.1);
            proof {
                processed = processed + 1;
            }
        }
        proof {
            assert(orig.take(processed) =~= orig);
        }
        ConfigurationBase { path: path.to_owned(), properties }
    }

    pub fn is_empty(&self) -> (r: bool)
        ensures
            r == (self.num_properties() == 0),
    {
        self.properties.is_empty()
    }

    /// The path of the backing file.
    pub fn get_path(&self) -> (r: &str)
        ensures
            r@ == self.spec_path(),
    {
        self.path.as_str()
    }

    /// Looks a property up.
    pub fn get<'a>(&'a self, key: &str) -> (r: Option<&'a Value>)
        requires
            self.wf(),
        ensures
            match r {
                Some(v) => self.props().contains_key(key@) && *v == self.props()[key@],
                None => !self.props().contains_key(key@),
            },
    {
        self.properties.get(key)
    }

    pub fn property_count(&self) -> (r: usize)
        ensures
            r == self.num_properties(),
    {
        self.properties.len()
    }

    /// The property at a position, in ascending key order.
    pub fn property_at<'a>(&'a self, i: usize) -> (r: (&'a String, &'a Value))
        requires
            self.wf(),
            i < self.num_properties(),
        ensures
            self.prop_entries()[i as int] == (r.0@, *r.1),
            self.props().contains_key(r.0@),
            self.props()[r.0@] == *r.1,
    {
        self.properties.entry_at(i)
    }

    /// The integer under a key; absence and any other type read the same.
    pub fn get_i64(&self, key: &str) -> (r: Option<i64>)
        requires
            self.wf(),
        ensures
            match r {
                Some(v) => self.props().contains_key(key@) && self.props()[key@] == Value::Integer(
                    v,
                ),
                None => !self.props().contains_key(key@) || !(self.props()[key@] is Integer),
            },
    {
        match self.get(key) {
            Some(Value::Integer(v)) => Some(*v),
            _ => None,
        }
    }

    /// The text under a key; absence and any other type read the same.
    pub fn get_str(&self, key: &str) -> (r: Option<String>)
        requires
            self.wf(),
        ensures
            match r {
                Some(v) => self.props().contains_key(key@) && self.props()[key@] == Value::Text(v),
                None => !self.props().contains_key(key@) || !(self.props()[key@] is Text),
            },
    {
        match self.get(key) {
            Some(Value::Text(v)) => Some(v.clone()),
            _ => None,
        }
    }

    /// The boolean under a key; absence and any other type read the same.
    pub fn get_bool(&self, key: &str) -> (r: Option<bool>)
        requires
            self.wf(),
        ensures
            match r {
                Some(v) => self.props().contains_key(key@) && self.props()[key@] == Value::Boolean(
                    v,
                ),
                None => !self.props().contains_key(key@) || !(self.props()[key@] is Boolean),
            },
    {
        match self.get(key) {
            Some(Value::Boolean(v)) => Some(*v),
            _ => None,
        }
    }

    /// The array under a key, provided every element is text; an array with
    /// an element of another type reads as absent, like any type mismatch.
    #[verifier::loop_isolation(false)]
    pub fn get_string_array(&self, key: &str) -> (r: Option<Vec<String>>)
        requires
            self.wf(),
        ensures
            match r {
                Some(v) => self.props().contains_key(key@) && (self.props()[key@] matches
                    Value::Array(a) && a@.len() == v@.len() && forall|i: int|
                    0 <= i < a@.len() ==> a@[i] == Value::Text(#[trigger] v@[i])),
                None => !self.props().contains_key(key@) || !(self.props()[key@] is Array) || (
                self.props()[key@] matches Value::Array(a) && exists|i: int|
                    0 <= i < a@.len() && !((#[trigger] a@[i]) is Text)),
            },
    {
        match self.get(key) {
            Some(Value::Array(a)) => {
                let mut out: Vec<String> = Vec::new();
                let n = a.len();
                let mut i: usize = 0;
                while i < n
                    invariant
                        i <= n,
                        out@.len() == i,
                        forall|j: int| 0 <= j < i ==> a@[j] == Value::Text(#[trigger] out@[j]),
                    decreases n - i,
                {
                    match &a[i] {
                        Value::Text(s) => {
                            out.push(s.clone());
                        },
                        _ => {
                            return None;
                        },
                    }
                    i = i + 1;
                }
                Some(out)
            },
            _ => None,
        }
    }

    /// The table under a key; absence and any other type read the same.
    pub fn get_table<'a>(&'a self, key: &str) -> (r: Option<&'a Vec<(String, Value)>>)
        requires
            self.wf(),
        ensures
            match r {
                Some(t) => self.props().contains_key(key@) && (self.props()[key@] matches
                    Value::Table(tab) && tab == *t),
                None => !self.props().contains_key(key@) || !(self.props()[key@] is Table),
            },
    {
        match self.get(key) {
            Some(Value::Table(t)) => Some(t),
            _ => None,
        }
    }

    /// Stores a value under a key. The caller persists the document to its
    /// backing file afterwards: every mutation is written through.
    pub fn set(&mut self, key: &str, value: Value)
        requires
            old(self).wf(),
        ensures
            final(self).wf(),
            final(self).spec_path() == old(self).spec_path(),
            final(self).props() == old(self).props().insert(key@, value),
    {
        self.properties.insert(key.to_owned(), value);
    }

    /// Stores an integer under a key.
    pub fn set_i64(&mut self, key: &str, value: i64)
        requires
            old(self).wf(),
        ensures
            final(self).wf(),
            final(self).spec_path() == old(self).spec_path(),
            final(self).props() == old(self).props().insert(key@, Value::Integer(value)),
    {
        self.set(key, Value::Integer(value));
    }

    /// Stores a text value under a key.
    pub fn set_str(&mut self, key: &str, value: &str)
        requires
            old(self).wf(),
        ensures
            final(self).wf(),
            final(self).spec_path() == old(self).spec_path(),
            final(self).props().contains_key(key@),
            final(self).props()[key@] matches Value::Text(t) && t@ == value@,
            final(self).props().remove(key@) == old(self).props().remove(key@),
    {
        self.set(key, Value::Text(value.to_owned()));
        proof {
            assert(final(self).props().remove(key@) =~= old(self).props().remove(key@));
        }
    }

    /// Stores an array of text values under a key.
    #[verifier::loop_isolation(false)]
    pub fn set_array(&mut self, key: &str, value: Vec<String>)
        requires
            old(self).wf(),
        ensures
            final(self).wf(),
            final(self).spec_path() == old(self).spec_path(),
            final(self).props().contains_key(key@),
            final(self).props()[key@] matches Value::Array(a) && a@.len() == value@.len()
                && forall|i: int|
                0 <= i < a@.len() ==> ((#[trigger] a@[i]) matches Value::Text(t) && t@
                    == value@[i]@),
            final(self).props().remove(key@) == old(self).props().remove(key@),
    {
        let ghost vv = value@;
        let mut value = value;
        let mut items: Vec<Value> = Vec::new();
        let mut i: usize = 0;
        let n = value.len();
        while i < n
            invariant
                i <= n,
                value@ == vv,
                n == vv.len(),
                items@.len() == i,
                forall|j: int|
                    0 <= j < i ==> ((#[trigger] items@[j]) matches Value::Text(t) && t@
                        == vv[j]@),
            decreases n - i,
        {
            let s = value[i].clone();
            proof {
                assert(s@ == vv[i as int]@);
            }
            items.push(Value::Text(s));
            i = i + 1;
        }
        self.set(key, Value::Array(items));
        proof {
            assert(final(self).props().remove(key@) =~= old(self).props().remove(key@));
        }
    }
}

/// The path of a bundle-scoped configuration base.
pub open spec fn spec_base_path(uuid: Seq<char>, base: Seq<char>) -> Seq<char> {
    "data/"@ + uuid + "/config/"@ + base
}

/// The path prefix under which a bundle's configuration bases live.
pub open spec fn spec_bundle_prefix(uuid: Seq<char>) -> Seq<char> {
    "data/"@ + uuid + "/config/"@
}

/// The in-memory index of all loaded configuration bases, keyed by path.
#[derive(Debug)]
pub struct ConfigurationRegistry {
    configuration_bases: StringMap<ConfigurationBase>,
}

impl ConfigurationRegistry {
    /// The abstract mapping from path to loaded document.
    pub closed spec fn bases(self) -> Map<Seq<char>, ConfigurationBase> {
        self.configuration_bases@
    }

    /// The loaded documents as path/document pairs in ascending path order.
    pub closed spec fn base_entries(self) -> Seq<(Seq<char>, ConfigurationBase)> {
        self.configuration_bases.entries_seq()
    }

    pub closed spec fn num_bases(self) -> nat {
        self.configuration_bases.num_entries()
    }

    /// The deep abstract state: each loaded path mapped to its properties.
    pub open spec fn state(self) -> Map<Seq<char>, Map<Seq<char>, Value>> {
        Map::new(
            |k: Seq<char>| self.bases().contains_key(k),
            |k: Seq<char>| self.bases()[k].props(),
        )
    }

    pub closed spec fn wf(self) -> bool {
        &&& self.configuration_bases.wf()
        &&& forall|k: Seq<char>|
            self.bases().contains_key(k) ==> (#[trigger] self.bases()[k]).wf()
                && self.bases()[k].spec_path() == k
    }

    /// Creates an empty registry.
    pub fn new() -> (r: ConfigurationRegistry)
        ensures
            r.wf(),
            r.state() == Map::<Seq<char>, Map<Seq<char>, Value>>::empty(),
            r.num_bases() == 0,
    {
        let r = ConfigurationRegistry { configuration_bases: StringMap::new() };
        proof {
            assert(r.state() =~= Map::<Seq<char>, Map<Seq<char>, Value>>::empty());
        }
        r
    }

    /// Empties the registry: a full reload starts from nothing, it never
    /// merges into what was loaded before.
    pub fn init(&mut self)
        ensures
            final(self).wf(),
            final(self).state() == Map::<Seq<char>, Map<Seq<char>, Value>>::empty(),
            final(self).num_bases() == 0,
    {
        self.configuration_bases.clear();
        proof {
            assert(final(self).state() =~= Map::<Seq<char>, Map<Seq<char>, Value>>::empty());
        }
    }

    /// Looks a base up by its exact path.
    pub fn get_base<'a>(&'a self, path: &str) -> (r: Option<&'a ConfigurationBase>)
        requires
            self.wf(),
        ensures
            match r {
                Some(b) => self.state().contains_key(path@) && b.wf() && b.spec_path() == path@
                    && b.props() == self.state()[path@] && *b == self.bases()[path@],
                None => !self.state().contains_key(path@),
            },
    {
        self.configuration_bases.get(path)
    }

    /// Loads one parsed document, replacing any base already at its path.
    pub fn load_base(&mut self, path: &str, entries: Vec<(String, Value)>)
        requires
            old(self).wf(),
        ensures
            final(self).wf(),
            final(self).state() == old(self).state().insert(
                path@,
                map_of(entry_views(entries@)),
            ),
    {
        let base = ConfigurationBase::from_entries(path, entries);
        self.configuration_bases.insert(path.to_owned(), base);
        proof {
            assert(final(self).state() =~= old(self).state().insert(
                path@,
                map_of(entry_views(entries@)),
            ));
        }
    }

    /// Loads a whole scan: every parsed file in order, each replacing any
    /// base already at its path. The result is a function of the input
    /// alone, so a rescan of identical content reproduces the registry.
    #[verifier::loop_isolation(false)]
    pub fn load_all(&mut self, files: Vec<(String, Vec<(String, Value)>)>)
        requires
            old(self).wf(),
        ensures
            final(self).wf(),
            final(self).state() == ConfigurationRegistry::loaded_state(
                old(self).state(),
                file_views(files@),
            ),
    {
        let ghost orig = files@;
        let mut files = files;
        let ghost mut processed: int = 0;
        proof {
            assert(files@ =~= orig.skip(0));
            assert(file_views(orig.take(0)) =~= Seq::<
                (Seq<char>, Seq<(Seq<char>, Value)>),
            >::empty());
        }
        while files.len() > 0
            invariant
                0 <= processed <= orig.len(),
                files@ == orig.skip(processed),
                self.wf(),
                self.state() == ConfigurationRegistry::loaded_state(
                    old(self).state(),
                    file_views(orig.take(processed)),
                ),
            decreases files@.len(),
        {
            let f = files.remove(0);
            proof {
                assert(f == orig[processed]);
                assert(files@ =~= orig.skip(processed + 1));
                let pre = file_views(orig.take(processed));
                let now = file_views(orig.take(processed + 1));
                assert(now.drop_last() =~= pre);
                assert(now.last() == (orig[processed].0@, entry_views(orig[processed].1@)));
            }
            self.load_base(f.0.as_str(), f.1);
            proof {
                processed = processed + 1;
            }
        }
        proof {
            assert(orig.take(processed) =~= orig);
        }
    }

    /// The state after loading a sequence of parsed files, in order.
    pub open spec fn loaded_state(
        m0: Map<Seq<char>, Map<Seq<char>, Value>>,
        files: Seq<(Seq<char>, Seq<(Seq<char>, Value)>)>,
    ) -> Map<Seq<char>, Map<Seq<char>, Value>>
        decreases files.len(),
    {
        if files.len() == 0 {
            m0
        } else {
            ConfigurationRegistry::loaded_state(m0, files.drop_last()).insert(
                files.last().0,
                map_of(files.last().1),
            )
        }
    }

    /// Unloads the base at a path; absence is an error. The caller persists
    /// the document before unloading it.
    pub fn unload_base(&mut self, path: &str) -> (r: Result<(), HttpError>)
        requires
            old(self).wf(),
        ensures
            final(self).wf(),
            match r {
                Ok(_) => old(self).state().contains_key(path@) && final(self).state() == old(
                    self,
                ).state().remove(path@),
                Err(e) => !old(self).state().contains_key(path@) && *final(self) == *old(self) && (
                e matches HttpError::NotFound(m) && m@ == "Configuration base not found"@),
            },
    {
        if self.configuration_bases.contains_key(path) {
            self.configuration_bases.remove(path);
            proof {
                assert(final(self).state() =~= old(self).state().remove(path@));
            }
            Ok(())
        } else {
            Err(HttpError::NotFound(String::from_str("Configuration base not found")))
        }
    }

    /// Every loaded base whose path begins with the given prefix, in path
    /// order.
    #[verifier::loop_isolation(false)]
    pub fn get_bases_of<'a>(&'a self, path: &str) -> (r: Vec<&'a ConfigurationBase>)
        requires
            self.wf(),
        ensures
            r@.map_values(|b: &ConfigurationBase| *b) == bases_with_prefix(
                self.base_entries(),
                path@,
            ),
            forall|i: int| 0 <= i < r@.len() ==> (#[trigger] r@[i]).wf(),
    {
        let mut out: Vec<&'a ConfigurationBase> = Vec::new();
        let n = self.configuration_bases.len();
        let mut i: usize = 0;
        proof {
            assert(bases_with_prefix(self.base_entries().take(0), path@) =~= Seq::<
                ConfigurationBase,
            >::empty());
            assert(out@.map_values(|b: &ConfigurationBase| *b) =~= Seq::<
                ConfigurationBase,
            >::empty());
        }
        while i < n
            invariant
                i <= n,
                out@.map_values(|b: &ConfigurationBase| *b) == bases_with_prefix(
                    self.base_entries().take(i as int),
                    path@,
                ),
                forall|j: int| 0 <= j < out@.len() ==> (#[trigger] out@[j]).wf(),
            decreases n - i,
        {
            let ghost pre = self.base_entries().take(i as int);
            let ghost now = self.base_entries().take(i as int + 1);
            proof {
                assert(now.drop_last() =~= pre);
                assert(now.last() == self.base_entries()[i as int]);
            }
            let (key, base) = self.configuration_bases.entry_at(i);
            proof {
                assert(self.bases().contains_key(key@));
                assert(self.bases()[key@].wf());
                assert(base.wf());
            }
            if starts_with(key.as_str(), path) {
                let ghost out0 = out@;
                out.push(base);
                proof {
                    assert(bases_with_prefix(now, path@) == bases_with_prefix(pre, path@).push(
                        now.last().1,
                    ));
                    assert(out@.map_values(|b: &ConfigurationBase| *b) =~= out0.map_values(
                        |b: &ConfigurationBase| *b,
                    ).push(*base));
                }
            } else {
                proof {
                    assert(bases_with_prefix(now, path@) == bases_with_prefix(pre, path@));
                }
            }
            i = i + 1;
        }
        proof {
            assert(self.base_entries().take(n as int) =~= self.base_entries());
        }
        out
    }
}

impl ConfigurationRegistry {
    /// The registry path of a bundle's named base.
    pub fn base_path(uuid: &str, base: &str) -> (r: String)
        ensures
            r@ == spec_base_path(uuid@, base@),
    {
        let mut r = String::from_str("data/");
        r.append(uuid);
        r.append("/config/");
        r.append(base);
        proof {
            assert(r@ =~= spec_base_path(uuid@, base@));
        }
        r
    }

    /// Looks a bundle's named base up.
    pub fn get_base_of_bundle<'a>(&'a self, uuid: &str, base: &str) -> (r: Option<
        &'a ConfigurationBase,
    >)
        requires
            self.wf(),
        ensures
            match r {
                Some(b) => self.state().contains_key(spec_base_path(uuid@, base@)) && b.wf()
                    && b.spec_path() == spec_base_path(uuid@, base@) && b.props() == self.state()[
                    spec_base_path(uuid@, base@)
                ],
                None => !self.state().contains_key(spec_base_path(uuid@, base@)),
            },
    {
        let path = Self::base_path(uuid, base);
        self.get_base(path.as_str())
    }

    /// Every base of a bundle's configuration root, in path order, without
    /// the bundle manifest itself.
    #[verifier::loop_isolation(false)]
    pub fn get_bases_of_bundle<'a>(&'a self, uuid: &str) -> (r: Vec<&'a ConfigurationBase>)
        requires
            self.wf(),
        ensures
            r@.map_values(|b: &ConfigurationBase| *b) == bundle_bases(self.base_entries(), uuid@),
            forall|i: int| 0 <= i < r@.len() ==> (#[trigger] r@[i]).wf(),
    {
        let mut prefix = String::from_str("data/");
        prefix.append(uuid);
        prefix.append("/config/");
        proof {
            assert(prefix@ =~= spec_bundle_prefix(uuid@));
        }
        let mut out: Vec<&'a ConfigurationBase> = Vec::new();
        let n = self.configuration_bases.len();
        let mut i: usize = 0;
        proof {
            assert(bundle_bases(self.base_entries().take(0), uuid@) =~= Seq::<
                ConfigurationBase,
            >::empty());
            assert(out@.map_values(|b: &ConfigurationBase| *b) =~= Seq::<
                ConfigurationBase,
            >::empty());
        }
        while i < n
            invariant
                i <= n,
                prefix@ == spec_bundle_prefix(uuid@),
                out@.map_values(|b: &ConfigurationBase| *b) == bundle_bases(
                    self.base_entries().take(i as int),
                    uuid@,
                ),
                forall|j: int| 0 <= j < out@.len() ==> (#[trigger] out@[j]).wf(),
            decreases n - i,
        {
            let ghost pre = self.base_entries().take(i as int);
            let ghost now = self.base_entries().take(i as int + 1);
            proof {
                assert(now.drop_last() =~= pre);
                assert(now.last() == self.base_entries()[i as int]);
            }
            let (key, base) = self.configuration_bases.entry_at(i);
            proof {
                assert(self.bases().contains_key(key@));
                assert(self.bases()[key@].wf());
                assert(base.wf());
            }
            if starts_with(key.as_str(), prefix.as_str()) && !ends_with(key.as_str(), "/bundle") {
                let ghost out0 = out@;
                out.push(base);
                proof {
                    assert(bundle_bases(now, uuid@) == bundle_bases(pre, uuid@).push(
                        now.last().1,
                    ));
                    assert(out@.map_values(|b: &ConfigurationBase| *b) =~= out0.map_values(
                        |b: &ConfigurationBase| *b,
                    ).push(*base));
                }
            } else {
                proof {
                    assert(bundle_bases(now, uuid@) == bundle_bases(pre, uuid@));
                }
            }
            i = i + 1;
        }
        proof {
            assert(self.base_entries().take(n as int) =~= self.base_entries());
        }
        out
    }

    /// Creates an empty base for a bundle; one that already exists is left
    /// untouched and reported as an error.
    pub fn create_base_of_bundle(&mut self, uuid: &str, base: &str) -> (r: Result<(), HttpError>)
        requires
            old(self).wf(),
        ensures
            final(self).wf(),
            match r {
                Ok(_) => !old(self).state().contains_key(spec_base_path(uuid@, base@))
                    && final(self).state() == old(self).state().insert(
                    spec_base_path(uuid@, base@),
                    Map::<Seq<char>, Value>::empty(),
                ),
                Err(e) => old(self).state().contains_key(spec_base_path(uuid@, base@))
                    && *final(self) == *old(self) && (e matches HttpError::ServerError(m) && m@ == "Base '"@
                    + spec_base_path(uuid@, base@) + "' already exists."@),
            },
    {
        let path = Self::base_path(uuid, base);
        if self.configuration_bases.contains_key(path.as_str()) {
            let mut m = String::from_str("Base '");
            m.append(path.as_str());
            m.append("' already exists.");
            proof {
                assert(m@ =~= "Base '"@ + spec_base_path(uuid@, base@) + "' already exists."@);
            }
            Err(HttpError::ServerError(m))
        } else {
            let b = ConfigurationBase::new(path.as_str());
            self.configuration_bases.insert(path, b);
            proof {
                assert(final(self).state() =~= old(self).state().insert(
                    spec_base_path(uuid@, base@),
                    Map::<Seq<char>, Value>::empty(),
                ));
            }
            Ok(())
        }
    }

    /// Deletes a bundle's base; one that does not exist is an error and
    /// nothing changes. The caller removes the backing file first, so a
    /// crash between the two steps leaves a stale entry, never a stale file.
    pub fn delete_base_of_bundle(&mut self, uuid: &str, base: &str) -> (r: Result<(), HttpError>)
        requires
            old(self).wf(),
        ensures
            final(self).wf(),
            match r {
                Ok(_) => old(self).state().contains_key(spec_base_path(uuid@, base@))
                    && final(self).state() == old(self).state().remove(spec_base_path(uuid@, base@)),
                Err(e) => !old(self).state().contains_key(spec_base_path(uuid@, base@))
                    && *final(self) == *old(self) && (e matches HttpError::NotFound(m) && m@ == "Base '"@
                    + spec_base_path(uuid@, base@) + "' does not exist."@),
            },
    {
        let path = Self::base_path(uuid, base);
        if self.configuration_bases.contains_key(path.as_str()) {
            self.configuration_bases.remove(path.as_str());
            proof {
                assert(final(self).state() =~= old(self).state().remove(
                    spec_base_path(uuid@, base@),
                ));
            }
            Ok(())
        } else {
            let mut m = String::from_str("Base '");
            m.append(path.as_str());
            m.append("' does not exist.");
            proof {
                assert(m@ =~= "Base '"@ + spec_base_path(uuid@, base@) + "' does not exist."@);
            }
            Err(HttpError::NotFound(m))
        }
    }

    /// Stores one value in the base at a path; only that base changes, and
    /// only at that key. The caller persists the changed document.
    pub fn set_value(&mut self, path: &str, key: &str, value: Value) -> (ok: bool)
        requires
            old(self).wf(),
        ensures
            final(self).wf(),
            ok == old(self).state().contains_key(path@),
            ok ==> final(self).state() == old(self).state().insert(
                path@,
                old(self).state()[path@].insert(key@, value),
            ),
            !ok ==> *final(self) == *old(self),
    {
        match self.configuration_bases.take(path) {
            Some(b) => {
                let mut b = b;
                proof {
                    assert(old(self).bases().contains_key(path@));
                    assert(b.wf());
                }
                b.set(key, value);
                self.configuration_bases.insert(path.to_owned(), b);
                proof {
                    assert(final(self).state() =~= old(self).state().insert(
                        path@,
                        old(self).state()[path@].insert(key@, value),
                    ));
                }
                true
            },
            None => false,
        }
    }

    pub fn base_count(&self) -> (r: usize)
        ensures
            r == self.num_bases(),
    {
        self.configuration_bases.len()
    }

    /// The base at a position, in ascending path order.
    pub fn base_at<'a>(&'a self, i: usize) -> (r: &'a ConfigurationBase)
        requires
            self.wf(),
            i < self.num_bases(),
        ensures
            *r == self.base_entries()[i as int].1,
            r.wf(),
            r.spec_path() == self.base_entries()[i as int].0,
            self.state().contains_key(r.spec_path()),
            self.state()[r.spec_path()] == r.props(),
    {
        proof {
            self.configuration_bases.lemma_entry_at(i as int);
            let k = self.base_entries()[i as int].0;
            assert(self.bases().contains_key(k));
            assert(self.bases()[k] == self.base_entries()[i as int].1);
            assert(self.bases()[k].wf());
        }
        let (_, base) = self.configuration_bases.entry_at(i);
        base
    }
}

/// The documents of a bundle's configuration root among `s`: path under the
/// bundle's prefix, and not the bundle manifest itself.
pub open spec fn bundle_bases(
    s: Seq<(Seq<char>, ConfigurationBase)>,
    uuid: Seq<char>,
) -> Seq<ConfigurationBase>
    decreases s.len(),
{
    if s.len() == 0 {
        Seq::empty()
    } else {
        let rest = bundle_bases(s.drop_last(), uuid);
        if spec_starts_with(s.last().0, spec_bundle_prefix(uuid)) && !spec_ends_with(
            s.last().0,
            "/bundle"@,
        ) {
            rest.push(s.last().1)
        } else {
            rest
        }
    }
}

/// The documents among `s` whose path begins with `prefix`, in order.
pub open spec fn bases_with_prefix(
    s: Seq<(Seq<char>, ConfigurationBase)>,
    prefix: Seq<char>,
) -> Seq<ConfigurationBase>
    decreases s.len(),
{
    if s.len() == 0 {
        Seq::empty()
    } else {
        let rest = bases_with_prefix(s.drop_last(), prefix);
        if spec_starts_with(s.last().0, prefix) {
            rest.push(s.last().1)
        } else {
            rest
        }
    }
}

/// The path view / entry views of a parsed file list.
pub open spec fn file_views(s: Seq<(String, Vec<(String, Value)>)>) -> Seq<
    (Seq<char>, Seq<(Seq<char>, Value)>),
> {
    s.map_values(|f: (String, Vec<(String, Value)>)| (f.0@, entry_views(f.1@)))
}

/// The path view / optional entry views of a scanned file list, a file
/// that would not parse marked as such.
pub open spec fn scan_views(s: Seq<(String, Option<Vec<(String, Value)>>)>) -> Seq<
    (Seq<char>, Option<Seq<(Seq<char>, Value)>>),
> {
    s.map_values(
        |f: (String, Option<Vec<(String, Value)>>)|
            (
                f.0@,
                match f.1 {
                    Some(v) => Some(entry_views(v@)),
                    None => None,
                },
            ),
    )
}

/// The registry state after loading scanned files in order: every file
/// that parsed is loaded, and an unparseable file is skipped, never fatal
/// to the rest of the scan.
pub open spec fn spec_load_files(
    m: Map<Seq<char>, Map<Seq<char>, Value>>,
    files: Seq<(Seq<char>, Option<Seq<(Seq<char>, Value)>>)>,
) -> Map<Seq<char>, Map<Seq<char>, Value>>
    decreases files.len(),
{
    if files.len() == 0 {
        m
    } else {
        let m1 = spec_load_files(m, files.drop_last());
        match files.last().1 {
            Some(entries) => m1.insert(files.last().0, map_of(entries)),
            None => m1,
        }
    }
}

/// Whether every file of a scan parsed.
pub open spec fn spec_scan_clean(files: Seq<(Seq<char>, Option<Seq<(Seq<char>, Value)>>)>) -> bool {
    forall|i: int| 0 <= i < files.len() ==> (#[trigger] files[i]).1 is Some
}

impl ConfigurationRegistry {
    /// Loads a scan of files in order. A file that did not parse is
    /// skipped and reported through the result; it never blocks the rest
    /// of the scan.
    #[verifier::loop_isolation(false)]
    pub fn load_scan(&mut self, files: Vec<(String, Option<Vec<(String, Value)>>)>) -> (ok: bool)
        requires
            old(self).wf(),
        ensures
            final(self).wf(),
            final(self).state() == spec_load_files(old(self).state(), scan_views(files@)),
            ok == spec_scan_clean(scan_views(files@)),
    {
        let ghost fviews = scan_views(files@);
        let mut files = files;
        let mut ok = true;
        let ghost mut processed: int = 0;
        proof {
            assert(scan_views(files@) =~= fviews.skip(0));
            assert(fviews.take(0) =~= Seq::<(Seq<char>, Option<Seq<(Seq<char>, Value)>>)>::empty());
        }
        while files.len() > 0
            invariant
                0 <= processed <= fviews.len(),
                scan_views(files@) == fviews.skip(processed),
                files@.len() == fviews.len() - processed,
                self.wf(),
                self.state() == spec_load_files(old(self).state(), fviews.take(processed)),
                ok == spec_scan_clean(fviews.take(processed)),
            decreases files@.len(),
        {
            let ghost pre = files@;
            let f = files.remove(0);
            proof {
                assert(files@ =~= pre.skip(1));
                assert(fviews[processed] == scan_views(pre)[0]);
                assert((f.0@, match f.1 {
                    Some(v) => Some(entry_views(v@)),
                    None => None,
                }) == fviews[processed]);
                assert forall|k: int| 0 <= k < files@.len() implies scan_views(files@)[k]
                    == fviews.skip(processed + 1)[k] by {
                    assert(files@[k] == pre[k + 1]);
                    assert(scan_views(files@)[k] == scan_views(pre)[k + 1]);
                    assert(scan_views(pre)[k + 1] == fviews.skip(processed)[k + 1]);
                }
                assert(scan_views(files@) =~= fviews.skip(processed + 1));
                assert(fviews.take(processed + 1).drop_last() =~= fviews.take(processed));
            }
            match f.1 {
                Some(entries) => {
                    self.load_base(f.0.as_str(), entries);
                },
                None => {
                    ok = false;
                },
            }
            proof {
                processed = processed + 1;
                let pre_t = fviews.take(processed - 1);
                let now_t = fviews.take(processed);
                assert(now_t[processed - 1] == fviews[processed - 1]);
                assert(forall|i: int|
                    0 <= i < processed - 1 ==> (#[trigger] now_t[i]) == pre_t[i]);
                if spec_scan_clean(pre_t) && fviews[processed - 1].1 is Some {
                    assert(spec_scan_clean(now_t));
                }
                if !spec_scan_clean(pre_t) {
                    let w = choose|i: int|
                        0 <= i < pre_t.len() && !((#[trigger] pre_t[i]).1 is Some);
                    assert(!(now_t[w].1 is Some));
                    assert(!spec_scan_clean(now_t));
                }
                if fviews[processed - 1].1 is None {
                    assert(!(now_t[processed - 1].1 is Some));
                    assert(!spec_scan_clean(now_t));
                }
            }
        }
        proof {
            assert(fviews.take(processed) =~= fviews);
        }
        ok
    }
}

} // verus!
