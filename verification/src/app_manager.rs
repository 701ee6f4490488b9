//! Bundle bookkeeping: a `Bundle` names one installed mini-application by
//! its directory and its manifest `uuid`; the `AppManager` indexes loaded
//! bundles by that `uuid`.

use crate::configuration::{
    entry_views, scan_views, spec_load_files, ConfigurationBase, ConfigurationRegistry,
};
use crate::http::HttpError;
use crate::value::Value;
use crate::strmap::{lemma_map_of_contains, lemma_map_of_index, map_of, StringMap};
use crate::text::str_eq;
use vstd::prelude::*;
use vstd::string::*;

verus! {

/// One installed bundle: its directory and its manifest identifier.
#[derive(Debug)]
pub struct Bundle {
    pub base_path: String,
    pub uuid: String,
}

impl Bundle {
    /// Builds a bundle from its directory path and its parsed manifest
    /// base, which must hold a text `uuid` property.
    pub fn load_bundle(path: &str, info: &ConfigurationBase) -> (r: Result<Bundle, HttpError>)
        requires
            info.wf(),
        ensures
            match r {
                Ok(b) => b.base_path@ == path@ && info.props().contains_key("uuid"@) && (
                info.props()["uuid"@] matches Value::Text(t) && t@ == b.uuid@),
                Err(e) => (!info.props().contains_key("uuid"@) || !(info.props()["uuid"@]
                    is Text)) && (e matches HttpError::ServerError(m) && m@
                    == "Invalid bundle configuration"@),
            },
    {
        match info.get_str("uuid") {
            Some(uuid) => Ok(Bundle { base_path: path.to_owned(), uuid }),
            None => Err(HttpError::ServerError(String::from_str("Invalid bundle configuration"))),
        }
    }
}

/// The text property under a key of an entry list, read as its document
/// mapping reads it: the later of two occurrences wins.
#[verifier::loop_isolation(false)]
pub fn text_property(entries: &Vec<(String, Value)>, key: &str) -> (r: Option<String>)
    ensures
        ({
            let m = map_of(entry_views(entries@));
            match r {
                Some(t) => m.contains_key(key@) && (m[key@] matches Value::Text(tt) && tt@ == t@),
                None => !m.contains_key(key@) || !(m[key@] is Text),
            }
        }),
{
    let ghost views = entry_views(entries@);
    let n = entries.len();
    let mut i: usize = n;
    while i > 0
        invariant
            i <= n,
            n == views.len(),
            forall|j: int| i <= j < n ==> (#[trigger] views[j]).0 != key@,
        decreases i,
    {
        i = i - 1;
        if str_eq(entries[i].0.as_str(), key) {
            proof {
                lemma_map_of_index(views, i as int);
            }
            match &entries[i].1 {
                Value::Text(t) => {
                    return Some(t.clone());
                },
                _ => {
                    return None;
                },
            }
        }
    }
    proof {
        lemma_map_of_contains(views, key@);
    }
    None
}

/// One scanned bundle directory: its path and its parsed configuration
/// files, a file that would not parse marked as such.
pub struct BundleLoad {
    pub path: String,
    pub files: Vec<(String, Option<Vec<(String, Value)>>)>,
}

/// The view of one scanned bundle directory.
pub open spec fn load_view(l: BundleLoad) -> (Seq<char>, Seq<
    (Seq<char>, Option<Seq<(Seq<char>, Value)>>),
>) {
    (l.path@, scan_views(l.files@))
}

pub open spec fn load_views(s: Seq<BundleLoad>) -> Seq<
    (Seq<char>, Seq<(Seq<char>, Option<Seq<(Seq<char>, Value)>>)>),
> {
    s.map_values(|l: BundleLoad| load_view(l))
}

/// The first file of a scan under a given path, if any.
pub open spec fn find_file(
    files: Seq<(Seq<char>, Option<Seq<(Seq<char>, Value)>>)>,
    p: Seq<char>,
) -> Option<Option<Seq<(Seq<char>, Value)>>>
    decreases files.len(),
{
    if files.len() == 0 {
        None
    } else if files[0].0 == p {
        Some(files[0].1)
    } else {
        find_file(files.skip(1), p)
    }
}

/// The manifest `uuid` of one scanned bundle directory, if its manifest
/// file is present, parses, and holds a text `uuid`.
pub open spec fn spec_manifest_uuid(
    load: (Seq<char>, Seq<(Seq<char>, Option<Seq<(Seq<char>, Value)>>)>),
) -> Option<Seq<char>> {
    match find_file(load.1, load.0 + "/config/bundle"@) {
        Some(Some(entries)) => {
            let m = map_of(entries);
            if m.contains_key("uuid"@) && (m["uuid"@] is Text) {
                Some(m["uuid"@]->Text_0@)
            } else {
                None
            }
        },
        _ => None,
    }
}

/// One scanned bundle directory applied to the bundle table and registry:
/// a directory without a usable manifest changes nothing; otherwise every
/// file that parses is loaded, a file that does not is skipped without
/// blocking the rest, and the bundle is indexed.
pub open spec fn spec_install(
    mgr: Map<Seq<char>, Seq<char>>,
    reg: Map<Seq<char>, Map<Seq<char>, Value>>,
    load: (Seq<char>, Seq<(Seq<char>, Option<Seq<(Seq<char>, Value)>>)>),
) -> (Map<Seq<char>, Seq<char>>, Map<Seq<char>, Map<Seq<char>, Value>>) {
    match spec_manifest_uuid(load) {
        Some(uuid) => (mgr.insert(uuid, load.0), spec_load_files(reg, load.1)),
        None => (mgr, reg),
    }
}

/// A whole scan applied in order.
pub open spec fn spec_init(
    mgr: Map<Seq<char>, Seq<char>>,
    reg: Map<Seq<char>, Map<Seq<char>, Value>>,
    loads: Seq<(Seq<char>, Seq<(Seq<char>, Option<Seq<(Seq<char>, Value)>>)>)>,
) -> (Map<Seq<char>, Seq<char>>, Map<Seq<char>, Map<Seq<char>, Value>>)
    decreases loads.len(),
{
    if loads.len() == 0 {
        (mgr, reg)
    } else {
        let (m1, r1) = spec_init(mgr, reg, loads.drop_last());
        spec_install(m1, r1, loads.last())
    }
}

/// The abstract bundle table: each indexed `uuid` mapped to its directory.
pub open spec fn manager_shape(m: Map<Seq<char>, Bundle>) -> Map<Seq<char>, Seq<char>> {
    Map::new(|k: Seq<char>| m.contains_key(k), |k: Seq<char>| m[k].base_path@)
}

/// The index of loaded bundles, keyed by manifest `uuid`.
pub struct AppManager {
    bundles: StringMap<Bundle>,
}

impl AppManager {
    /// The abstract mapping from `uuid` to bundle.
    pub closed spec fn bundle_map(self) -> Map<Seq<char>, Bundle> {
        self.bundles@
    }

    pub closed spec fn wf(self) -> bool {
        &&& self.bundles.wf()
        &&& forall|k: Seq<char>|
            self.bundle_map().contains_key(k) ==> (#[trigger] self.bundle_map()[k]).uuid@ == k
    }

    /// Creates an empty bundle table.
    pub fn new() -> (r: AppManager)
        ensures
            r.wf(),
            r.bundle_map() == Map::<Seq<char>, Bundle>::empty(),
    {
        AppManager { bundles: StringMap::new() }
    }

    /// Looks a bundle up by `uuid`.
    pub fn get_bundle<'a>(&'a self, uuid: &str) -> (r: Option<&'a Bundle>)
        requires
            self.wf(),
        ensures
            match r {
                Some(b) => self.bundle_map().contains_key(uuid@) && *b == self.bundle_map()[uuid@]
                    && b.uuid@ == uuid@,
                None => !self.bundle_map().contains_key(uuid@),
            },
    {
        self.bundles.get(uuid)
    }

    /// Loads a whole scan of the bundle directory: for each directory with
    /// a usable manifest, its configuration files go to the registry, one
    /// corrupt file never blocking the rest, and the bundle is indexed;
    /// the table is not cleared first, a rescan overwrites entry by entry.
    #[verifier::loop_isolation(false)]
    pub fn init(&mut self, configuration: &mut ConfigurationRegistry, loads: Vec<BundleLoad>)
        requires
            old(self).wf(),
            old(configuration).wf(),
        ensures
            final(self).wf(),
            final(configuration).wf(),
            (
                manager_shape(final(self).bundle_map()),
                final(configuration).state(),
            ) == spec_init(
                manager_shape(old(self).bundle_map()),
                old(configuration).state(),
                load_views(loads@),
            ),
    {
        let ghost lviews = load_views(loads@);
        let mut loads = loads;
        let ghost mut processed: int = 0;
        proof {
            assert(loads@ =~= loads@.skip(0));
            assert(lviews.take(0) =~= Seq::<
                (Seq<char>, Seq<(Seq<char>, Option<Seq<(Seq<char>, Value)>>)>),
            >::empty());
        }
        while loads.len() > 0
            invariant
                0 <= processed <= lviews.len(),
                load_views(loads@) == lviews.skip(processed),
                self.wf(),
                configuration.wf(),
                (manager_shape(self.bundle_map()), configuration.state()) == spec_init(
                    manager_shape(old(self).bundle_map()),
                    old(configuration).state(),
                    lviews.take(processed),
                ),
            decreases loads@.len(),
        {
            let ghost pre = loads@;
            let load = loads.remove(0);
            proof {
                assert(loads@ =~= pre.skip(1));
                assert(lviews[processed] == load_views(pre)[0]);
                assert(load_view(load) == lviews[processed]);
                assert forall|k: int| 0 <= k < loads@.len() implies load_views(loads@)[k]
                    == lviews.skip(processed + 1)[k] by {
                    assert(loads@[k] == pre[k + 1]);
                    assert(load_views(loads@)[k] == load_views(pre)[k + 1]);
                    assert(load_views(pre)[k + 1] == lviews.skip(processed)[k + 1]);
                }
                assert(load_views(loads@) =~= lviews.skip(processed + 1));
                assert(lviews.take(processed + 1).drop_last() =~= lviews.take(processed));
            }
            self.install(configuration, load);
            proof {
                processed = processed + 1;
            }
        }
        proof {
            assert(lviews.take(processed) =~= lviews);
        }
    }

    /// Loads one scanned bundle directory, as one step of `init`.
    pub fn install(&mut self, configuration: &mut ConfigurationRegistry, load: BundleLoad)
        requires
            old(self).wf(),
            old(configuration).wf(),
        ensures
            final(self).wf(),
            final(configuration).wf(),
            (
                manager_shape(final(self).bundle_map()),
                final(configuration).state(),
            ) == spec_install(
                manager_shape(old(self).bundle_map()),
                old(configuration).state(),
                load_view(load),
            ),
    {
        let ghost lv = load_view(load);
        let mut manifest_path = load.path.clone();
        manifest_path.append("/config/bundle");
        proof {
            assert(manifest_path@ =~= load.path@ + "/config/bundle"@);
        }
        let uuid = match Self::scan_manifest_uuid(&load.files, manifest_path.as_str()) {
            Some(u) => u,
            None => {
                return ;
            },
        };
        let path = load.path;
        let _all_parsed = configuration.load_scan(load.files);
        self.bundles.insert(uuid.clone(), Bundle { base_path: path, uuid });
        proof {
            assert(manager_shape(final(self).bundle_map()) =~= manager_shape(
                old(self).bundle_map(),
            ).insert(spec_manifest_uuid(lv)->Some_0, lv.0));
        }
    }

    /// The manifest `uuid` of a scanned directory's file list.
    #[verifier::loop_isolation(false)]
    fn scan_manifest_uuid(
        files: &Vec<(String, Option<Vec<(String, Value)>>)>,
        manifest_path: &str,
    ) -> (r: Option<String>)
        ensures
            ({
                let found = find_file(
                    scan_views(files@),
                    manifest_path@,
                );
                match r {
                    Some(u) => found matches Some(Some(entries)) && map_of(entries).contains_key(
                        "uuid"@,
                    ) && (map_of(entries)["uuid"@] is Text) && map_of(entries)["uuid"@]->Text_0@
                        == u@,
                    None => match found {
                        None => true,
                        Some(None) => true,
                        Some(Some(entries)) => !map_of(entries).contains_key("uuid"@) || !(map_of(
                            entries,
                        )["uuid"@] is Text),
                    },
                }
            }),
    {
        let ghost views = scan_views(files@);
        let n = files.len();
        let mut i: usize = 0;
        proof {
            assert(views.skip(0) =~= views);
        }
        while i < n
            invariant
                i <= n,
                n == views.len(),
                find_file(views, manifest_path@) == find_file(
                    views.skip(i as int),
                    manifest_path@,
                ),
            decreases n - i,
        {
            proof {
                assert(views.skip(i as int)[0] == views[i as int]);
                assert(views.skip(i as int).skip(1) =~= views.skip(i as int + 1));
            }
            if str_eq(files[i].0.as_str(), manifest_path) {
                match &files[i].1 {
                    Some(entries) => {
                        return text_property(entries, "uuid");
                    },
                    None => {
                        return None;
                    },
                }
            }
            i = i + 1;
        }
        proof {
            assert(views.skip(n as int) =~= Seq::<
                (Seq<char>, Option<Seq<(Seq<char>, Value)>>),
            >::empty());
        }
        None
    }
}

} // verus!
