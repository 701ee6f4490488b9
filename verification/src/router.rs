//! The router: resolves a parsed request to the action it asks for, and
//! carries out the configuration actions against the registry. Serving a
//! file is resolved here to a path and content type; reading the file and
//! writing the socket stay with the caller.

use crate::app_manager::AppManager;
use crate::configuration::{spec_base_path, ConfigurationRegistry};
use crate::http::{params_shape, HttpError, HttpRequest, ParamShape, ParameterValue};
use crate::strmap::StringMap;
use crate::text::{
    last_index_of, lemma_last_index_of, lemma_split_on_nonempty, rfind_char, split_on,
    split_string, str_eq,
};
use crate::value::Value;
use vstd::prelude::*;
use vstd::string::*;

verus! {

/// What a request asks the server to do.
#[derive(Debug)]
pub enum RouteAction {
    ServeBundleFile { uuid: String, path: String },
    ConfigGet { uuid: String, base: String, key: String },
    ConfigSet { uuid: String, base: String, key: String, value: String },
    ConfigCreateBase { uuid: String, base: String },
    ConfigDeleteBase { uuid: String, base: String },
    ConfigAll,
    Dashboard,
    ReloadDashboard,
    TriggerReloadSystem,
    TriggerReloadDashboard,
    Favicon,
    RedirectRoot,
}

/// The query parameter mapping of a request, if it carried one.
pub open spec fn query_shape(request: HttpRequest) -> Option<Map<Seq<char>, ParamShape>> {
    match request.get {
        Some(g) => Some(params_shape(g@)),
        None => None,
    }
}

/// The text of a named query parameter: a scalar's text, the empty text
/// for a list, nothing when the parameter or the whole query is absent.
pub open spec fn spec_param(gp: Option<Map<Seq<char>, ParamShape>>, name: Seq<char>) -> Option<
    Seq<char>,
> {
    match gp {
        Some(g) => if g.contains_key(name) {
            match g[name] {
                ParamShape::Scalar(s) => Some(s),
                ParamShape::List(_) => Some(Seq::empty()),
            }
        } else {
            None
        },
        None => None,
    }
}

/// The segments of a route joined back with `/`.
pub open spec fn join_slash(parts: Seq<Seq<char>>) -> Seq<char>
    decreases parts.len(),
{
    if parts.len() == 0 {
        Seq::empty()
    } else if parts.len() == 1 {
        parts[0]
    } else {
        join_slash(parts.drop_last()) + "/"@ + parts.last()
    }
}

/// Reads one named parameter as text, a list reading as empty text.
fn param_str(params: &StringMap<ParameterValue>, name: &str) -> (r: Option<String>)
    requires
        params.wf(),
    ensures
        match r {
            Some(t) => spec_param(Some(params_shape(params@)), name@) == Some(t@),
            None => spec_param(Some(params_shape(params@)), name@) is None,
        },
{
    match params.get(name) {
        Some(ParameterValue::Scalar(s)) => Some(s.clone()),
        Some(ParameterValue::List(_)) => Some(String::new()),
        None => None,
    }
}

/// Joins the route segments from a position on, with `/` between them.
#[verifier::loop_isolation(false)]
fn join_rest(segs: &Vec<String>, from: usize) -> (r: String)
    requires
        from <= segs@.len(),
    ensures
        r@ == join_slash(segs.deep_view().skip(from as int)),
{
    let ghost views = segs.deep_view();
    let mut out = String::new();
    if from >= segs.len() {
        proof {
            assert(views.skip(from as int) =~= Seq::<Seq<char>>::empty());
        }
        return out;
    }
    let mut i: usize = from;
    while i < segs.len()
        invariant
            from <= i <= segs.len(),
            segs.deep_view() == views,
            out@ == join_slash(views.subrange(from as int, i as int)),
        decreases segs@.len() - i,
    {
        proof {
            assert(views.subrange(from as int, i as int + 1).drop_last() =~= views.subrange(
                from as int,
                i as int,
            ));
            assert(views.subrange(from as int, i as int + 1).last() == views[i as int]);
            assert(views[i as int] == segs@[i as int]@);
        }
        if i > from {
            out.append("/");
        }
        out.append(segs[i].as_str());
        proof {
            assert(out@ =~= join_slash(views.subrange(from as int, i as int + 1)));
        }
        i = i + 1;
    }
    proof {
        assert(views.subrange(from as int, views.len() as int) =~= views.skip(from as int));
    }
    out
}

/// Resolves a request to its action, following the route table: the first
/// path segment selects the behaviour, the configuration endpoints read
/// their parameters from the query, the empty route redirects.
#[verifier::loop_isolation(false)]
pub fn dispatch(request: &HttpRequest) -> (r: Result<RouteAction, HttpError>)
    requires
        request.wf(),
    ensures
        ({
            let segs = split_on(request.route@, '/');
            let gp = query_shape(*request);
            match r {
                Ok(action) => segs.len() >= 2 && match action {
                    RouteAction::RedirectRoot => segs[1] == Seq::<char>::empty(),
                    RouteAction::ServeBundleFile { uuid, path } => segs[1] == "bundle"@
                        && segs.len() >= 3 && uuid@ == segs[2] && path@ == join_slash(segs.skip(3)),
                    RouteAction::ConfigGet { uuid, base, key } => segs[1] == "config_get"@
                        && spec_param(gp, "uuid"@) == Some(uuid@) && spec_param(gp, "base"@)
                        == Some(base@) && spec_param(gp, "key"@) == Some(key@),
                    RouteAction::ConfigSet { uuid, base, key, value } => segs[1] == "config_set"@
                        && spec_param(gp, "uuid"@) == Some(uuid@) && spec_param(gp, "base"@)
                        == Some(base@) && spec_param(gp, "key"@) == Some(key@) && spec_param(
                        gp,
                        "value"@,
                    ) == Some(value@),
                    RouteAction::ConfigCreateBase { uuid, base } => segs[1]
                        == "config_create_base"@ && spec_param(gp, "uuid"@) == Some(uuid@)
                        && spec_param(gp, "base"@) == Some(base@),
                    RouteAction::ConfigDeleteBase { uuid, base } => segs[1]
                        == "config_delete_base"@ && spec_param(gp, "uuid"@) == Some(uuid@)
                        && spec_param(gp, "base"@) == Some(base@),
                    RouteAction::ConfigAll => segs[1] == "config_all"@,
                    RouteAction::Dashboard => segs[1] == "dashboard"@,
                    RouteAction::ReloadDashboard => segs[1] == "reload_dashboard"@,
                    RouteAction::TriggerReloadSystem => segs[1] == "trigger_reload_system"@,
                    RouteAction::TriggerReloadDashboard => segs[1] == "trigger_reload_dashboard"@,
                    RouteAction::Favicon => segs[1] == "favicon.ico"@,
                },
                Err(e) => {
                    ||| (segs.len() < 2 && (e matches HttpError::BadRequest(m) && m@
                        == "Invalid request"@))
                    ||| (segs.len() >= 2 && segs[1] == "bundle"@ && segs.len() < 3 && (e matches
                    HttpError::BadRequest(m) && m@ == "Invalid request"@))
                    ||| (segs.len() >= 2 && (segs[1] == "config_get"@ || segs[1] == "config_set"@
                        || segs[1] == "config_create_base"@ || segs[1] == "config_delete_base"@)
                        && (spec_param(gp, "uuid"@) is None || spec_param(gp, "base"@) is None || (
                        segs[1] == "config_get"@ || segs[1] == "config_set"@) && spec_param(
                        gp,
                        "key"@,
                    ) is None || segs[1] == "config_set"@ && spec_param(gp, "value"@) is None) && (
                    e matches HttpError::BadRequest(m) && m@ == "Invalid request"@))
                    ||| (segs.len() >= 2 && segs[1] != Seq::<char>::empty() && segs[1] != "bundle"@
                        && segs[1] != "config_get"@ && segs[1] != "config_set"@ && segs[1]
                        != "config_create_base"@ && segs[1] != "config_delete_base"@ && segs[1]
                        != "config_all"@ && segs[1] != "dashboard"@ && segs[1]
                        != "reload_dashboard"@ && segs[1] != "trigger_reload_system"@ && segs[1]
                        != "trigger_reload_dashboard"@ && segs[1] != "favicon.ico"@ && (e matches
                    HttpError::BadRequest(m) && m@ == "Invalid request type: "@ + segs[1]))
                },
            }
        }),
{
    let segs = split_string(request.route.as_str(), '/');
    proof {
        lemma_split_on_nonempty(request.route@, '/');
        assert(segs@.len() == segs.deep_view().len());
    }
    if segs.len() < 2 {
        return Err(HttpError::BadRequest(String::from_str("Invalid request")));
    }
    proof {
        assert(segs.deep_view()[1] == segs@[1]@);
    }
    let seg1 = &segs[1];
    proof {
        reveal_strlit("");
        assert(""@ =~= Seq::<char>::empty());
    }
    if str_eq(seg1.as_str(), "") {
        Ok(RouteAction::RedirectRoot)
    } else if str_eq(seg1.as_str(), "bundle") {
        if segs.len() < 3 {
            return Err(HttpError::BadRequest(String::from_str("Invalid request")));
        }
        proof {
            assert(segs.deep_view()[2] == segs@[2]@);
        }
        let uuid = segs[2].clone();
        let path = join_rest(&segs, 3);
        Ok(RouteAction::ServeBundleFile { uuid, path })
    } else if str_eq(seg1.as_str(), "config_get") {
        let g = match &request.get {
            Some(g) => g,
            None => {
                return Err(HttpError::BadRequest(String::from_str("Invalid request")));
            },
        };
        let uuid = match param_str(g, "uuid") {
            Some(v) => v,
            None => {
                return Err(HttpError::BadRequest(String::from_str("Invalid request")));
            },
        };
        let base = match param_str(g, "base") {
            Some(v) => v,
            None => {
                return Err(HttpError::BadRequest(String::from_str("Invalid request")));
            },
        };
        let key = match param_str(g, "key") {
            Some(v) => v,
            None => {
                return Err(HttpError::BadRequest(String::from_str("Invalid request")));
            },
        };
        Ok(RouteAction::ConfigGet { uuid, base, key })
    } else if str_eq(seg1.as_str(), "config_set") {
        let g = match &request.get {
            Some(g) => g,
            None => {
                return Err(HttpError::BadRequest(String::from_str("Invalid request")));
            },
        };
        let uuid = match param_str(g, "uuid") {
            Some(v) => v,
            None => {
                return Err(HttpError::BadRequest(String::from_str("Invalid request")));
            },
        };
        let base = match param_str(g, "base") {
            Some(v) => v,
            None => {
                return Err(HttpError::BadRequest(String::from_str("Invalid request")));
            },
        };
        let key = match param_str(g, "key") {
            Some(v) => v,
            None => {
                return Err(HttpError::BadRequest(String::from_str("Invalid request")));
            },
        };
        let value = match param_str(g, "value") {
            Some(v) => v,
            None => {
                return Err(HttpError::BadRequest(String::from_str("Invalid request")));
            },
        };
        Ok(RouteAction::ConfigSet { uuid, base, key, value })
    } else if str_eq(seg1.as_str(), "config_create_base") {
        let g = match &request.get {
            Some(g) => g,
            None => {
                return Err(HttpError::BadRequest(String::from_str("Invalid request")));
            },
        };
        let uuid = match param_str(g, "uuid") {
            Some(v) => v,
            None => {
                return Err(HttpError::BadRequest(String::from_str("Invalid request")));
            },
        };
        let base = match param_str(g, "base") {
            Some(v) => v,
            None => {
                return Err(HttpError::BadRequest(String::from_str("Invalid request")));
            },
        };
        Ok(RouteAction::ConfigCreateBase { uuid, base })
    } else if str_eq(seg1.as_str(), "config_delete_base") {
        let g = match &request.get {
            Some(g) => g,
            None => {
                return Err(HttpError::BadRequest(String::from_str("Invalid request")));
            },
        };
        let uuid = match param_str(g, "uuid") {
            Some(v) => v,
            None => {
                return Err(HttpError::BadRequest(String::from_str("Invalid request")));
            },
        };
        let base = match param_str(g, "base") {
            Some(v) => v,
            None => {
                return Err(HttpError::BadRequest(String::from_str("Invalid request")));
            },
        };
        Ok(RouteAction::ConfigDeleteBase { uuid, base })
    } else if str_eq(seg1.as_str(), "config_all") {
        Ok(RouteAction::ConfigAll)
    } else if str_eq(seg1.as_str(), "dashboard") {
        Ok(RouteAction::Dashboard)
    } else if str_eq(seg1.as_str(), "reload_dashboard") {
        Ok(RouteAction::ReloadDashboard)
    } else if str_eq(seg1.as_str(), "trigger_reload_system") {
        Ok(RouteAction::TriggerReloadSystem)
    } else if str_eq(seg1.as_str(), "trigger_reload_dashboard") {
        Ok(RouteAction::TriggerReloadDashboard)
    } else if str_eq(seg1.as_str(), "favicon.ico") {
        Ok(RouteAction::Favicon)
    } else {
        let mut m = String::from_str("Invalid request type: ");
        m.append(seg1.as_str());
        proof {
            assert(m@ =~= "Invalid request type: "@ + segs.deep_view()[1]);
        }
        Err(HttpError::BadRequest(m))
    }
}

/// Reads the value under a key of a bundle's base, for `config_get`.
pub fn serve_config<'a>(
    registry: &'a ConfigurationRegistry,
    uuid: &str,
    base: &str,
    key: &str,
) -> (r: Result<&'a Value, HttpError>)
    requires
        registry.wf(),
    ensures
        ({
            let p = spec_base_path(uuid@, base@);
            match r {
                Ok(v) => registry.state().contains_key(p) && registry.state()[p].contains_key(key@)
                    && *v == registry.state()[p][key@],
                Err(e) => {
                    ||| (!registry.state().contains_key(p) && (e matches HttpError::NotFound(m)
                        && m@ == "Invalid configuration base: "@ + base@))
                    ||| (registry.state().contains_key(p) && !registry.state()[p].contains_key(
                        key@,
                    ) && (e matches HttpError::NotFound(m) && m@ == "Invalid configuration key: "@
                        + key@))
                },
            }
        }),
{
    match registry.get_base_of_bundle(uuid, base) {
        Some(b) => match b.get(key) {
            Some(v) => Ok(v),
            None => {
                let mut m = String::from_str("Invalid configuration key: ");
                m.append(key);
                Err(HttpError::NotFound(m))
            },
        },
        None => {
            let mut m = String::from_str("Invalid configuration base: ");
            m.append(base);
            Err(HttpError::NotFound(m))
        },
    }
}

/// Stores a decoded value under a key of a bundle's base, for
/// `config_set`; the caller persists the changed document.
pub fn config_set(
    registry: &mut ConfigurationRegistry,
    uuid: &str,
    base: &str,
    key: &str,
    value: Value,
) -> (r: Result<(), HttpError>)
    requires
        old(registry).wf(),
    ensures
        final(registry).wf(),
        ({
            let p = spec_base_path(uuid@, base@);
            match r {
                Ok(_) => old(registry).state().contains_key(p) && final(registry).state() == old(
                    registry,
                ).state().insert(p, old(registry).state()[p].insert(key@, value)),
                Err(e) => !old(registry).state().contains_key(p) && *final(registry) == *old(
                    registry,
                ) && (e matches HttpError::NotFound(m) && m@ == "Invalid configuration base: "@
                    + base@),
            }
        }),
{
    let path = ConfigurationRegistry::base_path(uuid, base);
    if registry.set_value(path.as_str(), key, value) {
        Ok(())
    } else {
        let mut m = String::from_str("Invalid configuration base: ");
        m.append(base);
        Err(HttpError::NotFound(m))
    }
}

/// Whether changing a bundle's configuration reinitializes the system:
/// the network and dashboard scopes derive their state from it.
pub fn is_reload_sensitive(uuid: &str) -> (r: bool)
    ensures
        r == (uuid@ == "wifi"@ || uuid@ == "widgets"@),
{
    str_eq(uuid, "wifi") || str_eq(uuid, "widgets")
}

/// The route a file request means when it names no file.
pub open spec fn spec_effective_route(route: Seq<char>) -> Seq<char> {
    if route.len() == 0 {
        "app/index.html"@
    } else {
        route
    }
}

/// The file served for a bundle and route: the route, or the index file,
/// under the bundle's directory.
pub open spec fn spec_file_path(base_path: Seq<char>, route: Seq<char>) -> Seq<char> {
    base_path + "/"@ + spec_effective_route(route)
}

/// The extension of a file path: what follows the last `.`, provided it
/// falls inside the last path segment and not at its start; anything else
/// reads as the plain-text extension.
pub open spec fn spec_path_extension(path: Seq<char>) -> Seq<char> {
    let d = last_index_of(path, '.');
    let sl = last_index_of(path, '/');
    if d > sl + 1 {
        path.skip(d + 1)
    } else {
        "txt"@
    }
}

/// The content type for a file extension, from the fixed table.
pub open spec fn spec_content_type(ext: Seq<char>) -> Seq<char> {
    if ext == "html"@ {
        "text/html"@
    } else if ext == "txt"@ {
        "text/plain"@
    } else if ext == "ttf"@ {
        "font/ttf"@
    } else if ext == "ico"@ {
        "image/x-icon"@
    } else if ext == "js"@ {
        "text/javascript"@
    } else if ext == "json"@ {
        "application/json"@
    } else {
        "text/plain"@
    }
}

/// The content type for a file extension.
pub fn content_type_for(extension: &str) -> (r: String)
    ensures
        r@ == spec_content_type(extension@),
{
    if str_eq(extension, "html") {
        String::from_str("text/html")
    } else if str_eq(extension, "txt") {
        String::from_str("text/plain")
    } else if str_eq(extension, "ttf") {
        String::from_str("font/ttf")
    } else if str_eq(extension, "ico") {
        String::from_str("image/x-icon")
    } else if str_eq(extension, "js") {
        String::from_str("text/javascript")
    } else if str_eq(extension, "json") {
        String::from_str("application/json")
    } else {
        String::from_str("text/plain")
    }
}

/// Resolves a bundle file request to the path to read and the content
/// type to answer with; an unknown bundle is reported before any file is
/// touched, and this resolution itself touches none.
pub fn resolve_bundle_file(manager: &AppManager, uuid: &str, route: &str) -> (r: Result<
    (String, String),
    HttpError,
>)
    requires
        manager.wf(),
    ensures
        match r {
            Ok(pc) => manager.bundle_map().contains_key(uuid@) && pc.0@ == spec_file_path(
                manager.bundle_map()[uuid@].base_path@,
                route@,
            ) && pc.1@ == spec_content_type(spec_path_extension(pc.0@)),
            Err(e) => !manager.bundle_map().contains_key(uuid@) && (e matches HttpError::NotFound(
                m,
            ) && m@ == "Bundle not found: "@ + uuid@),
        },
{
    let bundle = match manager.get_bundle(uuid) {
        Some(b) => b,
        None => {
            let mut m = String::from_str("Bundle not found: ");
            m.append(uuid);
            return Err(HttpError::NotFound(m));
        },
    };
    let mut path = bundle.base_path.clone();
    path.append("/");
    if route.unicode_len() == 0 {
        path.append("app/index.html");
    } else {
        path.append(route);
    }
    proof {
        assert(path@ =~= spec_file_path(manager.bundle_map()[uuid@].base_path@, route@));
    }
    let plen = path.as_str().unicode_len();
    let dot = rfind_char(path.as_str(), '.');
    let slash = rfind_char(path.as_str(), '/');
    proof {
        lemma_last_index_of(path@, '.');
        lemma_last_index_of(path@, '/');
    }
    let ext: String = match (dot, slash) {
        (Some(d), Some(sl)) => {
            proof {
                lemma_rfind_matches(path@, '.', d as int);
                lemma_rfind_matches(path@, '/', sl as int);
            }
            if d > sl + 1 {
                path.as_str().substring_char(d + 1, plen).to_owned()
            } else {
                String::from_str("txt")
            }
        },
        (Some(d), None) => {
            proof {
                lemma_rfind_matches(path@, '.', d as int);
                assert(last_index_of(path@, '/') == -1) by {
                    if last_index_of(path@, '/') != -1 {
                        assert(path@[last_index_of(path@, '/')] == '/');
                    }
                }
            }
            if d > 0 {
                path.as_str().substring_char(d + 1, plen).to_owned()
            } else {
                String::from_str("txt")
            }
        },
        _ => {
            proof {
                if dot is None {
                    assert(last_index_of(path@, '.') == -1) by {
                        if last_index_of(path@, '.') != -1 {
                            assert(path@[last_index_of(path@, '.')] == '.');
                        }
                    }
                }
            }
            String::from_str("txt")
        },
    };
    proof {
        assert(ext@ =~= spec_path_extension(path@));
    }
    let ctype = content_type_for(ext.as_str());
    Ok((path, ctype))
}

/// The last occurrence an exec search found is the last occurrence the
/// specification names.
proof fn lemma_rfind_matches(s: Seq<char>, c: char, i: int)
    requires
        0 <= i < s.len(),
        s[i] == c,
        forall|j: int| i < j < s.len() ==> s[j] != c,
    ensures
        last_index_of(s, c) == i,
{
    lemma_last_index_of(s, c);
    let li = last_index_of(s, c);
    if li == -1 {
        assert(s[i] != c);
    } else {
        if li < i {
            assert(s[i] != c);
        }
        if i < li {
            assert(s[li] != c);
        }
    }
}

} // verus!
