//! Template-context assembly: everything the template engine needs to
//! render one page, computed from the library and the directory-scoped
//! overlay configuration.

use crate::config::AppConfig;
use crate::library::{site_nav, spec_find_page, spec_nav_items};
use crate::page::NavItem;
use crate::resolve::{parent_dir_of, resolve_path, spec_basename, spec_parent_of, spec_resolve_path};
use crate::text::str_eq;
use crate::yaml::yaml_clone;
use vstd::prelude::*;

verus! {

/// Whether this run exports static files or serves them live.  A static
/// export is mounted under the project's base path; the dev server always
/// sits at `/`.
#[derive(Clone, Copy, Debug, PartialEq, Eq, Structural)]
pub enum Mode {
    Build,
    Serve,
}

/// Resolves a relative asset or page URL: prefixed with the project's
/// base path only for a static export.
pub fn apply_base_url(path: &str, prefix: &str, mode: Mode) -> (r: String)
    ensures
        mode is Build ==> r@ == prefix@ + path@,
        mode is Serve ==> r@ == path@,
{
    match mode {
        Mode::Build => {
            let mut out = prefix.to_owned();
            out.append(path);
            out
        },
        Mode::Serve => path.to_owned(),
    }
}

/// The template that the overlay entries select: the value of the last
/// `layout` key that holds a string, or the default `layout.html`.
pub open spec fn spec_select_template(fields: Seq<(String, Option<String>)>) -> Seq<char>
    decreases fields.len(),
{
    if fields.len() == 0 {
        "layout.html"@
    } else if fields.last().0@ == "layout"@ && fields.last().1 is Some {
        fields.last().1.unwrap()@
    } else {
        spec_select_template(fields.drop_last())
    }
}

/// Picks the template from the overlay entries, each given with its value
/// where that value is a string.
#[verifier::loop_isolation(false)]
pub fn select_template_from(fields: &Vec<(String, Option<String>)>) -> (r: String)
    ensures
        r@ == spec_select_template(fields@),
{
    let n = fields.len();
    let mut template = "layout.html".to_owned();
    let mut i: usize = 0;
    proof {
        assert(fields@.subrange(0, 0) =~= Seq::<(String, Option<String>)>::empty());
    }
    while i < n
        invariant
            i <= n,
            template@ == spec_select_template(fields@.subrange(0, i as int)),
        decreases n - i,
    {
        proof {
            assert(fields@.subrange(0, i + 1).drop_last() =~= fields@.subrange(0, i as int));
            assert(fields@.subrange(0, i + 1).last() == fields@[i as int]);
        }
        if str_eq(fields[i].0.as_str(), "layout") {
            if let Some(t) = &fields[i].1 {
                template = t.clone();
            }
        }
        i += 1;
    }
    proof {
        assert(fields@.subrange(0, n as int) =~= fields@);
    }
    template
}

/// What the YAML decoder makes of a directory overlay: `None` where the
/// text is not a mapping with string keys only; otherwise each entry's
/// key, with its value where that value is a string.
pub uninterp spec fn overlay_kv_of(text: Seq<char>) -> Option<Seq<(String, Option<String>)>>;

/// Relies on `serde_yaml::from_str` and `Value::as_mapping`/`as_str`:
/// parses the overlay as a mapping whose keys are all strings; each entry
/// comes back with its key, its value where that value is a string, and
/// the value itself for the template context.
#[verifier::external_body]
fn overlay_fields(text: &str) -> (r: Option<Vec<(String, Option<String>, serde_yaml::Value)>>)
    ensures
        match r {
            Some(v) => Some(
                v@.map_values(|t: (String, Option<String>, serde_yaml::Value)| (t.0, t.1)),
            ) == overlay_kv_of(text@),
            None => overlay_kv_of(text@) is None,
        },
{
    let v: serde_yaml::Value = serde_yaml::from_str(text).ok()?;
    let m = v.as_mapping()?;
    let mut out: Vec<(String, Option<String>, serde_yaml::Value)> = Vec::new();
    for (k, val) in m.iter() {
        out.push((k.as_str()?.to_string(), val.as_str().map(|s| s.to_string()), val.clone()));
    }
    Some(out)
}

/// Everything the template engine is handed for one page, beyond the page
/// itself: the template to use, the canonical path, the navigation, and
/// the overlay context entries.
pub struct RenderPlan {
    pub template: String,
    pub path: String,
    pub nav: Vec<NavItem>,
    pub extra: Vec<(String, serde_yaml::Value)>,
}

/// Why a page could not be prepared for rendering.
#[derive(Clone, Copy, Debug, PartialEq, Eq, Structural)]
pub enum RenderFailure {
    /// The resolved path has no page in the library.
    UnknownPage,
    /// The directory's overlay configuration does not decode.
    BadOverlay,
}

/// Prepares the rendering of the page at `filename`: checks that the
/// library holds it, decodes the directory overlay (whose `layout` key
/// overrides the default template), and computes navigation and canonical
/// path.
#[verifier::loop_isolation(false)]
pub fn render_plan(config: &AppConfig, filename: &str, dir_cfg_text: Option<&str>) -> (r: Result<
    RenderPlan,
    RenderFailure,
>)
    requires
        config.wf(),
        spec_basename(spec_parent_of(filename@)).len() > 0,
    ensures
        r == Err::<RenderPlan, RenderFailure>(RenderFailure::UnknownPage) <==> spec_find_page(
            config.library.entries@,
            filename@,
        ) is None,
        r == Err::<RenderPlan, RenderFailure>(RenderFailure::BadOverlay) <==> ({
            &&& spec_find_page(config.library.entries@, filename@) is Some
            &&& (dir_cfg_text matches Some(t) && overlay_kv_of(t@) is None)
        }),
        r matches Ok(plan) ==> {
            &&& plan.path@ == spec_resolve_path(filename@, config.folder@)
            &&& plan.nav@.map_values(|it: NavItem| (it.url@, it.title@)) == spec_nav_items(
                config.library.entries@,
                spec_parent_of(filename@),
                config.folder@,
            )
            &&& (dir_cfg_text is None ==> plan.template@ == "layout.html"@ && plan.extra@.len()
                == 0)
            &&& (dir_cfg_text matches Some(t) ==> {
                &&& overlay_kv_of(t@) matches Some(kvs)
                &&& plan.template@ == spec_select_template(kvs)
                &&& plan.extra@.map_values(|p: (String, serde_yaml::Value)| p.0)
                    == kvs.map_values(|p: (String, Option<String>)| p.0)
            })
        },
{
    if config.library.get(filename).is_none() {
        return Err(RenderFailure::UnknownPage);
    }
    let (parent, _dirname) = parent_dir_of(filename);
    let (template, extra) = match dir_cfg_text {
        None => {
            let t = "layout.html".to_owned();
            proof {
                assert(Seq::<(String, Option<String>)>::empty().subrange(0, 0)
                    =~= Seq::<(String, Option<String>)>::empty());
            }
            (t, Vec::<(String, serde_yaml::Value)>::new())
        },
        Some(text) => {
            let es = match overlay_fields(text) {
                Some(es) => es,
                None => {
                    return Err(RenderFailure::BadOverlay);
                },
            };
            let ghost kvs = es@.map_values(
                |t: (String, Option<String>, serde_yaml::Value)| (t.0, t.1),
            );
            let n = es.len();
            let mut fields: Vec<(String, Option<String>)> = Vec::new();
            let mut extra: Vec<(String, serde_yaml::Value)> = Vec::new();
            let mut i: usize = 0;
            while i < n
                invariant
                    i <= n,
                    fields@.len() == i,
                    extra@.len() == i,
                    forall|j: int|
                        0 <= j < i ==> #[trigger] fields@[j] == (es@[j].0, es@[j].1),
                    forall|j: int| 0 <= j < i ==> (#[trigger] extra@[j]).0 == es@[j].0,
                decreases n - i,
            {
                let key = es[i].0.clone();
                let sval: Option<String> = match &es[i].1 {
                    Some(v) => Some(v.clone()),
                    None => None,
                };
                extra.push((es[i].0.clone(), yaml_clone(&es[i].2)));
                fields.push((key, sval));
                i += 1;
            }
            proof {
                assert(fields@ =~= kvs);
                assert(extra@.map_values(|p: (String, serde_yaml::Value)| p.0) =~= kvs.map_values(
                    |p: (String, Option<String>)| p.0,
                ));
            }
            (select_template_from(&fields), extra)
        },
    };
    let nav = site_nav(&config.library, parent.as_str(), config.folder.as_str());
    let path = resolve_path(filename, config.folder.as_str());
    Ok(RenderPlan { template, path, nav, extra })
}

} // verus!
