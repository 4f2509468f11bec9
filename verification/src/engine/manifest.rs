//! Reading `package.json` manifests: the fields of a package found under
//! `node_modules`, and the dependencies a project declares.
use vstd::prelude::*;
use crate::jetcrab::web_apis::json_error;
use crate::jetcrab::esm::opt_str;
use crate::engine::vue_compiler::{PackageInfo, package_view};
use crate::text::owned;
use crate::jetcrab::module::str_views;

verus! {

/// The top-level field `key` of the JSON text, when it parses: `None` where
/// there is no such field (or the text is not an object), `Some(None)` where
/// the field is not a string, else its string.
pub uninterp spec fn json_str_field(text: Seq<char>, key: Seq<char>) -> Option<Option<Seq<char>>>;

/// The entries of the object held by the top-level field `key` of the JSON
/// text, when it parses, in the order `serde_json` walks them, each value as
/// its string where it is one; `None` where there is no such field or it is
/// not an object.
pub uninterp spec fn json_object_entries(text: Seq<char>, key: Seq<char>) -> Option<Seq<(Seq<char>, Option<Seq<char>>)>>;

/// A field by its plain values.
pub open spec fn field_view(f: Option<Option<String>>) -> Option<Option<Seq<char>>> {
    match f {
        None => None,
        Some(v) => Some(opt_str(v)),
    }
}

/// Object entries by their plain values.
pub open spec fn entries_view(e: Option<Vec<(String, Option<String>)>>) -> Option<Seq<(Seq<char>, Option<Seq<char>>)>> {
    match e {
        None => None,
        Some(v) => Some(v@.map_values(|p: (String, Option<String>)| (p.0@, opt_str(p.1)))),
    }
}

/// Calls `serde_json::from_str` for a `serde_json::Value`, then `get` of
/// `key` and `as_str`. The error message is that of `from_str`; the field
/// depends on the text and the key alone.
#[verifier::external_body]
fn manifest_str_field(text: &str, key: &str) -> (r: Result<Option<Option<String>>, String>)
    ensures
        match r {
            Ok(f) => json_error(text@) is None && field_view(f) == json_str_field(text@, key@),
            Err(m) => json_error(text@) == Some(m@),
        },
{
    let v = serde_json::from_str::<serde_json::Value>(text).map_err(|e| e.to_string())?;
    Ok(v.get(key).map(|x| x.as_str().map(|s| s.to_string())))
}

/// Calls `serde_json::from_str` for a `serde_json::Value`, then `get` of
/// `key`, `as_object`, and for each entry `as_str` of its value. The error
/// message is that of `from_str`; the entries depend on the text and the key
/// alone.
#[verifier::external_body]
fn manifest_object_entries(text: &str, key: &str) -> (r: Result<Option<Vec<(String, Option<String>)>>, String>)
    ensures
        match r {
            Ok(e) => json_error(text@) is None && entries_view(e) == json_object_entries(text@, key@),
            Err(m) => json_error(text@) == Some(m@),
        },
{
    let v = serde_json::from_str::<serde_json::Value>(text).map_err(|e| e.to_string())?;
    Ok(v.get(key).and_then(|o| o.as_object()).map(|o| o.iter().map(|(k, x)| (k.clone(), x.as_str().map(|s| s.to_string()))).collect()))
}

/// The string of a field, where it is one.
pub open spec fn str_field(text: Seq<char>, key: Seq<char>) -> Option<Seq<char>> {
    match json_str_field(text, key) {
        Some(Some(s)) => Some(s),
        _ => None,
    }
}

/// The string or a default.
pub open spec fn or_default(o: Option<Seq<char>>, d: Seq<char>) -> Seq<char> {
    match o {
        Some(s) => s,
        None => d,
    }
}

/// The type definitions a manifest names: `types` where that field is
/// there (and a string), else `typings`.
pub open spec fn manifest_types(text: Seq<char>) -> Option<Seq<char>> {
    match json_str_field(text, "types"@) {
        None => str_field(text, "typings"@),
        Some(f) => f,
    }
}

/// The package a manifest describes, for the package asked for by
/// `package_name`: name, version, main entry, module entry, style sheet and
/// types, by their plain values.
pub open spec fn manifest_package(package_name: Seq<char>, text: Seq<char>) -> (
    Seq<char>,
    Seq<char>,
    Seq<char>,
    Option<Seq<char>>,
    Option<Seq<char>>,
    Option<Seq<char>>,
) {
    (
        or_default(str_field(text, "name"@), package_name),
        or_default(str_field(text, "version"@), "unknown"@),
        or_default(str_field(text, "main"@), "index.js"@),
        str_field(text, "module"@),
        str_field(text, "style"@),
        manifest_types(text),
    )
}

/// The entry file a manifest names: the module entry, else the main one.
pub open spec fn manifest_entry(text: Seq<char>) -> Seq<char> {
    or_default(str_field(text, "module"@), or_default(str_field(text, "main"@), "index.js"@))
}

/// A string field of a manifest known to parse.
fn string_field(text: &str, key: &str) -> (r: Option<String>)
    requires
        json_error(text@) is None,
    ensures
        opt_str(r) == str_field(text@, key@),
{
    match manifest_str_field(text, key) {
        Ok(Some(Some(s))) => Some(s),
        _ => None,
    }
}

/// The package that the manifest text of `package_name` describes, with
/// the entry file to follow; the parse error where the text is not JSON.
pub fn npm_manifest(package_name: &str, manifest_text: &str) -> (r: Result<(PackageInfo, String), String>)
    ensures
        match json_error(manifest_text@) {
            Some(m) => r matches Err(e) && e@ == m,
            None => r matches Ok(p) && package_view(p.0) == manifest_package(package_name@, manifest_text@)
                && p.1@ == manifest_entry(manifest_text@),
        },
{
    let types_field = match manifest_str_field(manifest_text, "types") {
        Ok(f) => f,
        Err(m) => return Err(m),
    };
    let name = string_field(manifest_text, "name");
    let version = string_field(manifest_text, "version");
    let main = string_field(manifest_text, "main");
    let module = string_field(manifest_text, "module");
    let style = string_field(manifest_text, "style");
    let (types, typings) = match types_field {
        None => (None, string_field(manifest_text, "typings")),
        Some(t) => (t, None),
    };
    Ok(PackageInfo::from_manifest(package_name, name, version, main, module, style, types, typings))
}

/// A declared dependency by its plain values: name, version range, and
/// whether it is a development dependency.
pub open spec fn declared_view(d: (String, String, bool)) -> (Seq<char>, Seq<char>, bool) {
    (d.0@, d.1@, d.2)
}

/// The entries of one section of a manifest, each version the string value
/// or empty.
pub open spec fn section_entries(text: Seq<char>, key: Seq<char>, dev: bool) -> Seq<(Seq<char>, Seq<char>, bool)> {
    match json_object_entries(text, key) {
        None => Seq::empty(),
        Some(es) => es.map_values(|e: (Seq<char>, Option<Seq<char>>)| (e.0, or_default(e.1, Seq::empty()), dev)),
    }
}

/// The dependencies a project manifest declares: its `dependencies`, then
/// its `devDependencies`.
pub open spec fn declared_entries(text: Seq<char>) -> Seq<(Seq<char>, Seq<char>, bool)> {
    section_entries(text, "dependencies"@, false) + section_entries(text, "devDependencies"@, true)
}

/// Appends the entries of one section of a manifest known to parse.
fn push_section(text: &str, key: &str, dev: bool, out: &mut Vec<(String, String, bool)>)
    requires
        json_error(text@) is None,
    ensures
        final(out)@.map_values(|d: (String, String, bool)| declared_view(d)) == old(out)@.map_values(
            |d: (String, String, bool)| declared_view(d),
        ) + section_entries(text@, key@, dev),
{
    let ghost start = out@.map_values(|d: (String, String, bool)| declared_view(d));
    match manifest_object_entries(text, key) {
        Ok(Some(es)) => {
            let ghost ev = es@.map_values(|p: (String, Option<String>)| (p.0@, opt_str(p.1)));
            let ghost sec = section_entries(text@, key@, dev);
            let mut i: usize = 0;
            while i < es.len()
                invariant
                    i <= es@.len(),
                    ev == es@.map_values(|p: (String, Option<String>)| (p.0@, opt_str(p.1))),
                    sec.len() == es@.len(),
                    forall|j: int| 0 <= j < es@.len() ==> #[trigger] sec[j] == (ev[j].0, or_default(ev[j].1, Seq::empty()), dev),
                    out@.map_values(|d: (String, String, bool)| declared_view(d)) == start + sec.take(i as int),
                decreases es@.len() - i,
            {
                let ghost before = out@.map_values(|d: (String, String, bool)| declared_view(d));
                let version = match &es[i].1 {
                    Some(v) => v.clone(),
                    None => String::new(),
                };
                let name = es[i].0.clone();
                proof {
                    assert(ev[i as int] == (es@[i as int].0@, opt_str(es@[i as int].1)));
                    assert(version@ == or_default(ev[i as int].1, Seq::empty()));
                    assert(name@ == ev[i as int].0);
                }
                out.push((name, version, dev));
                proof {
                    assert(sec[i as int] == (ev[i as int].0, or_default(ev[i as int].1, Seq::empty()), dev));
                    assert(out@.map_values(|d: (String, String, bool)| declared_view(d)) =~= before.push(sec[i as int]));
                    assert(sec.take(i + 1) =~= sec.take(i as int).push(sec[i as int]));
                }
                i = i + 1;
            }
            assert(sec.take(es@.len() as int) =~= sec);
        },
        _ => {
            assert(section_entries(text@, key@, dev) =~= Seq::<(Seq<char>, Seq<char>, bool)>::empty());
            assert(start + Seq::<(Seq<char>, Seq<char>, bool)>::empty() =~= start);
        },
    }
}

/// The dependencies a project manifest declares, runtime ones first and
/// then development ones, each with its version range (empty where it is not
/// a string); an error where the text is not JSON.
pub fn declared_dependencies(manifest_text: &str) -> (r: Result<Vec<(String, String, bool)>, String>)
    ensures
        match json_error(manifest_text@) {
            Some(_) => r matches Err(e) && e@ == "Failed to parse package.json"@,
            None => r matches Ok(v) && v@.map_values(|d: (String, String, bool)| declared_view(d))
                == declared_entries(manifest_text@),
        },
{
    match manifest_str_field(manifest_text, "dependencies") {
        Ok(_) => {},
        Err(_) => return Err(owned("Failed to parse package.json")),
    }
    let mut out: Vec<(String, String, bool)> = Vec::new();
    assert(out@.map_values(|d: (String, String, bool)| declared_view(d)) =~= Seq::empty());
    push_section(manifest_text, "dependencies", false, &mut out);
    push_section(manifest_text, "devDependencies", true, &mut out);
    assert(Seq::<(Seq<char>, Seq<char>, bool)>::empty() + section_entries(manifest_text@, "dependencies"@, false)
        =~= section_entries(manifest_text@, "dependencies"@, false));
    Ok(out)
}

/// The version an installed package's manifest gives, where it parses and
/// gives one as a string.
pub open spec fn installed_version_of(manifest: Option<Seq<char>>) -> Option<Seq<char>> {
    match manifest {
        Some(t) => if json_error(t) is None { str_field(t, "version"@) } else { None },
        None => None,
    }
}

/// The packages an installed package's manifest depends on: the names of its
/// `dependencies`, where it parses.
pub open spec fn installed_deps_of(manifest: Option<Seq<char>>) -> Seq<Seq<char>> {
    match manifest {
        Some(t) => if json_error(t) is None {
            match json_object_entries(t, "dependencies"@) {
                Some(es) => es.map_values(|e: (Seq<char>, Option<Seq<char>>)| e.0),
                None => Seq::empty(),
            }
        } else {
            Seq::empty()
        },
        None => Seq::empty(),
    }
}

/// The version and the dependency names that an installed package's
/// manifest gives, if it has one.
pub fn installed_manifest(manifest: &Option<String>) -> (r: (Option<String>, Vec<String>))
    ensures
        opt_str(r.0) == installed_version_of(opt_str(*manifest)),
        str_views(r.1@) == installed_deps_of(opt_str(*manifest)),
{
    let mut deps: Vec<String> = Vec::new();
    let text = match manifest {
        Some(t) => t.as_str(),
        None => {
            assert(str_views(deps@) =~= Seq::empty());
            return (None, deps);
        },
    };
    let entries = match manifest_object_entries(text, "dependencies") {
        Ok(e) => e,
        Err(_) => {
            assert(str_views(deps@) =~= Seq::empty());
            return (None, deps);
        },
    };
    let version = string_field(text, "version");
    match entries {
        Some(es) => {
            let ghost ev = es@.map_values(|p: (String, Option<String>)| (p.0@, opt_str(p.1)));
            let mut i: usize = 0;
            while i < es.len()
                invariant
                    i <= es@.len(),
                    ev == es@.map_values(|p: (String, Option<String>)| (p.0@, opt_str(p.1))),
                    str_views(deps@) == ev.map_values(|e: (Seq<char>, Option<Seq<char>>)| e.0).take(i as int),
                decreases es@.len() - i,
            {
                deps.push(es[i].0.clone());
                proof {
                    let names = ev.map_values(|e: (Seq<char>, Option<Seq<char>>)| e.0);
                    assert(names.take(i + 1) =~= names.take(i as int).push(names[i as int]));
                    assert(str_views(deps@) =~= names.take(i + 1));
                }
                i = i + 1;
            }
            proof {
                let names = ev.map_values(|e: (Seq<char>, Option<Seq<char>>)| e.0);
                assert(names.take(es@.len() as int) =~= names);
            }
        },
        None => {
            assert(str_views(deps@) =~= Seq::empty());
        },
    }
    (version, deps)
}

/// The entries of the object held by the top-level field `key` of a
/// manifest (none where there is no such object), each value as its string
/// where it is one; the parse error where the text is not JSON.
pub fn manifest_entries(manifest_text: &str, key: &str) -> (r: Result<Vec<(String, Option<String>)>, String>)
    ensures
        match json_error(manifest_text@) {
            Some(m) => r matches Err(e) && e@ == m,
            None => r matches Ok(v) && v@.map_values(|p: (String, Option<String>)| (p.0@, opt_str(p.1))) == (
            match json_object_entries(manifest_text@, key@) {
                Some(es) => es,
                None => Seq::empty(),
            }),
        },
{
    match manifest_object_entries(manifest_text, key) {
        Ok(Some(v)) => Ok(v),
        Ok(None) => {
            let v: Vec<(String, Option<String>)> = Vec::new();
            assert(v@.map_values(|p: (String, Option<String>)| (p.0@, opt_str(p.1))) =~= Seq::empty());
            Ok(v)
        },
        Err(m) => Err(m),
    }
}

/// The top-level field `key` of a manifest where it is a string; the parse
/// error where the text is not JSON.
pub fn manifest_string(manifest_text: &str, key: &str) -> (r: Result<Option<String>, String>)
    ensures
        match json_error(manifest_text@) {
            Some(m) => r matches Err(e) && e@ == m,
            None => r matches Ok(v) && opt_str(v) == str_field(manifest_text@, key@),
        },
{
    match manifest_str_field(manifest_text, key) {
        Ok(Some(Some(s))) => Ok(Some(s)),
        Ok(_) => Ok(None),
        Err(m) => Err(m),
    }
}

/// The string reached from the JSON text by the object keys in order (each
/// step `Value::get` with a string key), when the text parses; `None` where
/// a step finds nothing or the end is not a string.
pub uninterp spec fn json_str_at(text: Seq<char>, keys: Seq<Seq<char>>) -> Option<Seq<char>>;

/// Calls `serde_json::from_str` for a `serde_json::Value`, then `get` of
/// `a` and of `b`, and `as_str`. The error message is that of `from_str`.
#[verifier::external_body]
pub(crate) fn json_str_at2(text: &str, a: &str, b: &str) -> (r: Result<Option<String>, String>)
    ensures
        match r {
            Ok(f) => json_error(text@) is None && opt_str(f) == json_str_at(text@, seq![a@, b@]),
            Err(m) => json_error(text@) == Some(m@),
        },
{
    let v = serde_json::from_str::<serde_json::Value>(text).map_err(|e| e.to_string())?;
    Ok(v.get(a).and_then(|x| x.get(b)).and_then(|x| x.as_str()).map(|s| s.to_string()))
}

/// Calls `serde_json::from_str` for a `serde_json::Value`, then `get` of
/// `a`, `b`, `c` and `d` in turn, and `as_str`. The error message is that
/// of `from_str`.
#[verifier::external_body]
pub(crate) fn json_str_at4(text: &str, a: &str, b: &str, c: &str, d: &str) -> (r: Result<Option<String>, String>)
    ensures
        match r {
            Ok(f) => json_error(text@) is None && opt_str(f) == json_str_at(text@, seq![a@, b@, c@, d@]),
            Err(m) => json_error(text@) == Some(m@),
        },
{
    let v = serde_json::from_str::<serde_json::Value>(text).map_err(|e| e.to_string())?;
    Ok(v.get(a).and_then(|x| x.get(b)).and_then(|x| x.get(c)).and_then(|x| x.get(d)).and_then(|x| x.as_str()).map(|s| s.to_string()))
}

} // verus!
