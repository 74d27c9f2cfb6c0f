//! Decisions the application's commands make: what the app reports about
//! itself, the settings that feed new instances and the HTTP client, the
//! template and profile a command acts on.
use vstd::prelude::*;
use crate::error::{AppError, AppResult};
use crate::instances::{InstancePatch, InstanceTemplate, NewInstance};
use crate::paths::{join, path_join_str};
use crate::text::{
    append_str, chars_of, ends_with, has_suffix_str, lit, lower, oview, parse_i64, parse_i64_spec, str_eq,
    string_of, to_lower, trim, trimmed,
};

verus! {

broadcast use vstd::string::group_string_axioms;

/// What the app reports about itself.
pub struct AppInfo {
    pub name: String,
    pub version: String,
    pub disclaimer: String,
    pub disclaimer_accepted: bool,
    pub data_dir: String,
    pub instances_root: String,
}

/// The notice shown until the user accepts it.
pub open spec fn disclaimer_text() -> Seq<char> {
    "NOT AN OFFICIAL MINECRAFT PRODUCT. NOT APPROVED BY OR ASSOCIATED WITH MOJANG OR MICROSOFT"@
}

/// The app's name, version and folders; the notice counts as accepted when
/// the `disclaimer_accepted` setting is `true`.
pub fn app_info(version: &str, accepted_setting: Option<String>, data_dir: String, instances_root: String) -> (r: AppInfo)
    ensures
        r.name@ == "Aureum"@,
        r.version@ == version@,
        r.disclaimer@ == disclaimer_text(),
        r.disclaimer_accepted == (oview(accepted_setting) == Some("true"@)),
        r.data_dir == data_dir,
        r.instances_root == instances_root,
{
    let accepted = match &accepted_setting {
        Some(s) => str_eq(s.as_str(), "true"),
        None => false,
    };
    AppInfo {
        name: lit("Aureum"),
        version: lit(version),
        disclaimer: lit(
            "NOT AN OFFICIAL MINECRAFT PRODUCT. NOT APPROVED BY OR ASSOCIATED WITH MOJANG OR MICROSOFT",
        ),
        disclaimer_accepted: accepted,
        data_dir,
        instances_root,
    }
}

/// The user agent of the app's HTTP client.
pub fn user_agent(version: &str) -> (r: String)
    ensures
        r@ == "Aureum/"@ + version@ + " (dev.aureum.launcher; +https://modrinth.com)"@,
{
    let mut v = chars_of("Aureum/");
    append_str(&mut v, version);
    append_str(&mut v, " (dev.aureum.launcher; +https://modrinth.com)");
    string_of(&v)
}

/// The user agent of a client rebuilt after the proxy setting changes.
pub fn short_user_agent(version: &str) -> (r: String)
    ensures
        r@ == "Aureum/"@ + version@,
{
    let mut v = chars_of("Aureum/");
    append_str(&mut v, version);
    string_of(&v)
}

/// The proxy of the client built at start: the stored setting, unless empty.
pub fn startup_proxy(stored: Option<String>) -> (r: Option<String>)
    ensures
        oview(r) == match stored {
            Some(s) => if s@.len() > 0 {
                Some(s@)
            } else {
                None
            },
            None => None,
        },
{
    match stored {
        Some(s) => if chars_of(s.as_str()).len() > 0 {
            Some(s)
        } else {
            None
        },
        None => None,
    }
}

/// The proxy of a client rebuilt after the setting changes: the trimmed
/// value, unless blank.
pub fn changed_proxy(value: &str) -> (r: Option<String>)
    ensures
        oview(r) == if trim(value@).len() > 0 {
            Some(trim(value@))
        } else {
            None
        },
{
    let t = trimmed(&chars_of(value));
    if t.len() > 0 {
        Some(string_of(&t))
    } else {
        None
    }
}

/// Where instances live: the stored setting unless empty, else
/// `{data_dir}/instances`.
pub fn instances_root_of(stored: Option<String>, data_dir: &str) -> (r: String)
    ensures
        r@ == match stored {
            Some(s) => if s@.len() > 0 {
                s@
            } else {
                join(data_dir@, "instances"@)
            },
            None => join(data_dir@, "instances"@),
        },
{
    match stored {
        Some(s) => {
            if chars_of(s.as_str()).len() > 0 {
                return s;
            }
        },
        None => {},
    }
    string_of(&path_join_str(&chars_of(data_dir), "instances"))
}

/// A changed setting moves where instances live: the `instances_root`
/// key with a value that is not blank.
pub fn moves_instances_root(key: &str, value: &str) -> (b: bool)
    ensures
        b == (key@ == "instances_root"@ && trim(value@).len() > 0),
{
    str_eq(key, "instances_root") && trimmed(&chars_of(value)).len() > 0
}

/// A new instance with the stored defaults filled in where it gives
/// nothing: the memory setting when it parses as a number, the Java path
/// and the JVM arguments.
pub fn with_setting_defaults(
    new: NewInstance,
    memory_setting: Option<String>,
    java_path_setting: Option<String>,
    jvm_args_setting: Option<String>,
) -> (r: NewInstance)
    ensures
        r.name == new.name,
        r.loader == new.loader,
        r.game_version == new.game_version,
        r.loader_version == new.loader_version,
        r.keep_open == new.keep_open,
        r.memory_mb == match new.memory_mb {
            Some(m) => Some(m),
            None => match memory_setting {
                Some(s) => parse_i64_spec(s@),
                None => None,
            },
        },
        r.java_path == match new.java_path {
            Some(p) => Some(p),
            None => java_path_setting,
        },
        r.jvm_args == match new.jvm_args {
            Some(a) => Some(a),
            None => jvm_args_setting,
        },
{
    let memory_mb = match new.memory_mb {
        Some(m) => Some(m),
        None => match &memory_setting {
            Some(s) => parse_i64(s.as_str()),
            None => None,
        },
    };
    NewInstance {
        name: new.name,
        loader: new.loader,
        game_version: new.game_version,
        loader_version: new.loader_version,
        java_path: match new.java_path {
            Some(p) => Some(p),
            None => java_path_setting,
        },
        memory_mb,
        jvm_args: match new.jvm_args {
            Some(a) => Some(a),
            None => jvm_args_setting,
        },
        keep_open: new.keep_open,
    }
}

/// The first template with id `id`, if any.
pub open spec fn template_with_id(ts: Seq<InstanceTemplate>, id: Seq<char>) -> Option<InstanceTemplate>
    decreases ts.len(),
{
    if ts.len() == 0 {
        None
    } else if ts[0].id@ == id {
        Some(ts[0])
    } else {
        template_with_id(ts.drop_first(), id)
    }
}

/// The template with id `template_id`.
pub fn find_template(templates: Vec<InstanceTemplate>, template_id: &str) -> (r: AppResult<InstanceTemplate>)
    ensures
        match template_with_id(templates@, template_id@) {
            Some(t) => r == Ok::<InstanceTemplate, AppError>(t),
            None => r matches Err(e) && e.message@ == "Unknown template"@,
        },
{
    let mut ts = templates;
    let ghost all = ts@;
    let mut i: usize = 0;
    assert(all.skip(0) =~= all);
    while i < ts.len()
        invariant
            i <= ts.len(),
            ts@ == all,
            all == templates@,
            template_with_id(all, template_id@) == template_with_id(all.skip(i as int), template_id@),
        decreases ts.len() - i,
    {
        assert(all.skip(i as int)[0] == all[i as int]);
        assert(all.skip(i as int).drop_first() =~= all.skip(i + 1));
        if str_eq(ts[i].id.as_str(), template_id) {
            return Ok(ts.remove(i));
        }
        i += 1;
    }
    Err(AppError::lit("Unknown template"))
}

/// The instance a template creates: its settings under the given name
/// (else the template's), at the resolved game version, kept open.
pub fn template_request(t: InstanceTemplate, name: Option<String>, game_version: String) -> (r: NewInstance)
    ensures
        r.name == match name {
            Some(n) => n,
            None => t.name,
        },
        r.loader == t.loader,
        r.game_version == game_version,
        r.loader_version == t.loader_version,
        r.java_path is None,
        r.memory_mb is None,
        r.jvm_args is None,
        r.keep_open == Some(true),
{
    NewInstance {
        name: match name {
            Some(n) => n,
            None => t.name,
        },
        loader: t.loader,
        game_version,
        loader_version: t.loader_version,
        java_path: None,
        memory_mb: None,
        jvm_args: None,
        keep_open: Some(true),
    }
}

/// The patch that moves an instance to another game version (and
/// optionally loader); a blank game version is refused.
pub fn upgrade_patch(game_version: &str, loader: Option<String>, loader_version: Option<String>) -> (r: AppResult<InstancePatch>)
    ensures
        trim(game_version@).len() == 0 ==> (r matches Err(e) && e.message@
            == "Minecraft version is required"@),
        trim(game_version@).len() > 0 ==> (r matches Ok(p) && p.name is None && p.java_path is None
            && p.memory_mb is None && p.jvm_args is None && p.keep_open is None && p.icon is None
            && oview(p.game_version) == Some(trim(game_version@)) && p.loader == loader
            && p.loader_version == loader_version),
{
    let g = trimmed(&chars_of(game_version));
    if g.len() == 0 {
        return Err(AppError::lit("Minecraft version is required"));
    }
    Ok(
        InstancePatch {
            name: None,
            java_path: None,
            memory_mb: None,
            jvm_args: None,
            keep_open: None,
            icon: None,
            game_version: Some(string_of(&g)),
            loader,
            loader_version,
        },
    )
}

/// The profile a launch plays as: the requested one, else the active one.
pub fn launch_profile(requested: Option<String>, active: Option<String>) -> (r: AppResult<String>)
    ensures
        match (requested, active) {
            (Some(p), _) => r == Ok::<String, AppError>(p),
            (None, Some(p)) => r == Ok::<String, AppError>(p),
            (None, None) => r matches Err(e) && e.message@ == "Select a profile in Accounts before playing"@,
        },
{
    match requested {
        Some(p) => Ok(p),
        None => match active {
            Some(p) => Ok(p),
            None => Err(AppError::lit("Select a profile in Accounts before playing")),
        },
    }
}

/// The path a pack is saved to: the chosen path, with `.mrpack` appended
/// unless it already ends so (in any letter case).
pub open spec fn mrpack_save_path_of(picked: Seq<char>) -> Seq<char> {
    if ends_with(lower(picked), ".mrpack"@) {
        picked
    } else {
        picked + ".mrpack"@
    }
}

pub fn mrpack_save_path(picked: &str) -> (r: String)
    ensures
        r@ == mrpack_save_path_of(picked@),
{
    let low = to_lower(&chars_of(picked));
    if has_suffix_str(&low, ".mrpack") {
        lit(picked)
    } else {
        let mut v = chars_of(picked);
        append_str(&mut v, ".mrpack");
        string_of(&v)
    }
}

} // verus!
