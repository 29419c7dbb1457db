//! Project-wide configuration, read once at startup from an optional
//! `config.yaml` in the project directory.
//!
//! The document must be a mapping: a `project` key holds the metadata, a
//! `nav` key holds the navigation declarations, other string keys are
//! ignored, and a non-string key — or an unusable value under a recognised
//! key — fails the whole decode.

use crate::library::Library;
use crate::text::{join_path, spec_join_path, str_eq};
use crate::yaml::{parse_plain, yaml_plain_of, PlainVal};
use vstd::prelude::*;

verus! {

/// The project configuration file sits directly inside the project
/// directory and is named `config.yaml`.
pub fn get_config_path(project_dir: &str) -> (r: String)
    ensures
        r@ == spec_join_path(project_dir@, "config.yaml"@),
{
    join_path(project_dir, "config.yaml")
}

/// Optional project metadata: a display title, a description, and a base
/// path under which the exported site is mounted.
pub struct ProjectMetadata {
    pub title: Option<String>,
    pub description: Option<String>,
    pub root_dir: Option<String>,
}

/// One declared navigation entry: arbitrary string keys and values,
/// passed through to the templates.
pub struct NavItem {
    pub item: Vec<(String, String)>,
}

/// The process-wide project configuration.
pub struct ProjectConfig {
    pub project: Option<ProjectMetadata>,
    pub nav: Option<Vec<NavItem>>,
}

/// The abstract value of a `ProjectConfig`, with the navigation as
/// sequences.
#[verifier::ext_equal]
pub struct ConfigModel {
    pub project: Option<ProjectMetadata>,
    pub nav: Option<Seq<Seq<(String, String)>>>,
}

impl ProjectConfig {
    /// The abstract value of this record.
    pub open spec fn model(self) -> ConfigModel {
        ConfigModel {
            project: self.project,
            nav: match self.nav {
                Some(ns) => Some(ns@.map_values(|n: NavItem| n.item@)),
                None => None,
            },
        }
    }
}

impl Default for ProjectConfig {
    /// The configuration of a project without a config file.
    fn default() -> (r: Self)
        ensures
            r.project is None,
            r.nav is None,
    {
        ProjectConfig { project: None, nav: None }
    }
}

/// The whole per-process state: the project directory, the configuration,
/// and the library of rendered pages.
pub struct AppConfig {
    pub folder: String,
    pub project_config: ProjectConfig,
    pub library: Library,
}

impl AppConfig {
    /// The library invariant carries over.
    pub open spec fn wf(self) -> bool {
        self.library.wf()
    }
}

/// The effect of one metadata entry: the three known keys take a string
/// or null; an unusable value or a non-string key fails the decode; other
/// string keys are ignored.
pub open spec fn spec_meta_apply(m: ProjectMetadata, k: Option<String>, v: PlainVal) -> Option<
    ProjectMetadata,
> {
    match k {
        None => None,
        Some(k) => if k@ == "title"@ {
            match v {
                PlainVal::Null => Some(ProjectMetadata { title: None, ..m }),
                PlainVal::Text(s) => Some(ProjectMetadata { title: Some(s), ..m }),
                _ => None,
            }
        } else if k@ == "description"@ {
            match v {
                PlainVal::Null => Some(ProjectMetadata { description: None, ..m }),
                PlainVal::Text(s) => Some(ProjectMetadata { description: Some(s), ..m }),
                _ => None,
            }
        } else if k@ == "rootDir"@ {
            match v {
                PlainVal::Null => Some(ProjectMetadata { root_dir: None, ..m }),
                PlainVal::Text(s) => Some(ProjectMetadata { root_dir: Some(s), ..m }),
                _ => None,
            }
        } else {
            Some(m)
        },
    }
}

/// Decoding a metadata mapping: the entries applied in order to the empty
/// record.
pub open spec fn spec_meta_decode(entries: Seq<(Option<String>, PlainVal)>) -> Option<
    ProjectMetadata,
>
    decreases entries.len(),
{
    if entries.len() == 0 {
        Some(ProjectMetadata { title: None, description: None, root_dir: None })
    } else {
        match spec_meta_decode(entries.drop_last()) {
            None => None,
            Some(m) => spec_meta_apply(m, entries.last().0, entries.last().1),
        }
    }
}

/// Decoding one navigation entry's pairs: every key a string, every value
/// a string.
pub open spec fn spec_nav_pairs(entries: Seq<(Option<String>, PlainVal)>) -> Option<
    Seq<(String, String)>,
>
    decreases entries.len(),
{
    if entries.len() == 0 {
        Some(Seq::empty())
    } else {
        match spec_nav_pairs(entries.drop_last()) {
            None => None,
            Some(ps) => match (entries.last().0, entries.last().1) {
                (Some(k), PlainVal::Text(s)) => Some(ps.push((k, s))),
                _ => None,
            },
        }
    }
}

/// Decoding the navigation list: every item a string-to-string mapping.
pub open spec fn spec_nav_list(items: Seq<PlainVal>) -> Option<Seq<Seq<(String, String)>>>
    decreases items.len(),
{
    if items.len() == 0 {
        Some(Seq::empty())
    } else {
        match spec_nav_list(items.drop_last()) {
            None => None,
            Some(ns) => match items.last() {
                PlainVal::Entries(es) => match spec_nav_pairs(es@) {
                    Some(ps) => Some(ns.push(ps)),
                    None => None,
                },
                _ => None,
            },
        }
    }
}

/// The effect of one top-level entry: `project` takes null or a metadata
/// mapping, `nav` takes null or a list of string-to-string mappings, other
/// string keys are ignored, a non-string key fails.
pub open spec fn spec_config_apply(c: ConfigModel, k: Option<String>, v: PlainVal) -> Option<
    ConfigModel,
> {
    match k {
        None => None,
        Some(k) => if k@ == "project"@ {
            match v {
                PlainVal::Null => Some(ConfigModel { project: None, ..c }),
                PlainVal::Entries(es) => match spec_meta_decode(es@) {
                    Some(m) => Some(ConfigModel { project: Some(m), ..c }),
                    None => None,
                },
                _ => None,
            }
        } else if k@ == "nav"@ {
            match v {
                PlainVal::Null => Some(ConfigModel { nav: None, ..c }),
                PlainVal::List(items) => match spec_nav_list(items@) {
                    Some(ns) => Some(ConfigModel { nav: Some(ns), ..c }),
                    None => None,
                },
                _ => None,
            }
        } else {
            Some(c)
        },
    }
}

/// Decoding the whole document: it must be a mapping, whose entries apply
/// in order to the empty configuration.
pub open spec fn spec_config_fold(entries: Seq<(Option<String>, PlainVal)>) -> Option<ConfigModel>
    decreases entries.len(),
{
    if entries.len() == 0 {
        Some(ConfigModel { project: None, nav: None })
    } else {
        match spec_config_fold(entries.drop_last()) {
            None => None,
            Some(c) => spec_config_apply(c, entries.last().0, entries.last().1),
        }
    }
}

/// The configuration a YAML document decodes to.
pub open spec fn spec_config_decode(p: PlainVal) -> Option<ConfigModel> {
    match p {
        PlainVal::Entries(es) => spec_config_fold(es@),
        _ => None,
    }
}

/// A failure on a prefix of the entries fails the whole mapping.
proof fn lemma_meta_decode_none(entries: Seq<(Option<String>, PlainVal)>, i: int)
    requires
        0 <= i <= entries.len(),
        spec_meta_decode(entries.subrange(0, i)) is None,
    ensures
        spec_meta_decode(entries) is None,
    decreases entries.len() - i,
{
    if i == entries.len() {
        assert(entries.subrange(0, i) =~= entries);
    } else {
        assert(entries.subrange(0, i + 1).drop_last() =~= entries.subrange(0, i));
        lemma_meta_decode_none(entries, i + 1);
    }
}

/// Decodes the `project:` mapping entries, in order.
#[verifier::loop_isolation(false)]
fn meta_from_entries(entries: &Vec<(Option<String>, PlainVal)>) -> (r: Option<ProjectMetadata>)
    ensures
        match spec_meta_decode(entries@) {
            None => r is None,
            Some(m) => r == Some(m),
        },
{
    let n = entries.len();
    let mut m = ProjectMetadata { title: None, description: None, root_dir: None };
    let mut i: usize = 0;
    proof {
        assert(entries@.subrange(0, 0) =~= Seq::<(Option<String>, PlainVal)>::empty());
    }
    while i < n
        invariant
            i <= n,
            spec_meta_decode(entries@.subrange(0, i as int)) == Some(m),
        decreases n - i,
    {
        proof {
            assert(entries@.subrange(0, i + 1).drop_last() =~= entries@.subrange(0, i as int));
            assert(entries@.subrange(0, i + 1).last() == entries@[i as int]);
        }
        let k = match &entries[i].0 {
            Some(k) => k,
            None => {
                proof {
                    lemma_meta_decode_none(entries@, i + 1);
                }
                return None;
            },
        };
        let next: Option<ProjectMetadata> = if str_eq(k.as_str(), "title") {
            match &entries[i].1 {
                PlainVal::Null => Some(ProjectMetadata { title: None, ..m }),
                PlainVal::Text(s) => Some(ProjectMetadata { title: Some(s.clone()), ..m }),
                _ => None,
            }
        } else if str_eq(k.as_str(), "description") {
            match &entries[i].1 {
                PlainVal::Null => Some(ProjectMetadata { description: None, ..m }),
                PlainVal::Text(s) => Some(ProjectMetadata { description: Some(s.clone()), ..m }),
                _ => None,
            }
        } else if str_eq(k.as_str(), "rootDir") {
            match &entries[i].1 {
                PlainVal::Null => Some(ProjectMetadata { root_dir: None, ..m }),
                PlainVal::Text(s) => Some(ProjectMetadata { root_dir: Some(s.clone()), ..m }),
                _ => None,
            }
        } else {
            Some(m)
        };
        match next {
            Some(m2) => {
                m = m2;
            },
            None => {
                proof {
                    lemma_meta_decode_none(entries@, i + 1);
                }
                return None;
            },
        }
        i += 1;
    }
    proof {
        assert(entries@.subrange(0, n as int) =~= entries@);
    }
    Some(m)
}

/// Decodes one navigation entry: a flat mapping of strings to strings.
#[verifier::loop_isolation(false)]
fn nav_pairs_from(entries: &Vec<(Option<String>, PlainVal)>) -> (r: Option<Vec<(String, String)>>)
    ensures
        match spec_nav_pairs(entries@) {
            None => r is None,
            Some(ps) => r matches Some(v) && v@ == ps,
        },
{
    let n = entries.len();
    let mut out: Vec<(String, String)> = Vec::new();
    let mut i: usize = 0;
    proof {
        assert(entries@.subrange(0, 0) =~= Seq::<(Option<String>, PlainVal)>::empty());
    }
    while i < n
        invariant
            i <= n,
            spec_nav_pairs(entries@.subrange(0, i as int)) == Some(out@),
        decreases n - i,
    {
        proof {
            assert(entries@.subrange(0, i + 1).drop_last() =~= entries@.subrange(0, i as int));
            assert(entries@.subrange(0, i + 1).last() == entries@[i as int]);
        }
        match (&entries[i].0, &entries[i].1) {
            (Some(k), PlainVal::Text(s)) => {
                out.push((k.clone(), s.clone()));
            },
            _ => {
                proof {
                    lemma_nav_pairs_none(entries@, i + 1);
                }
                return None;
            },
        }
        i += 1;
    }
    proof {
        assert(entries@.subrange(0, n as int) =~= entries@);
    }
    Some(out)
}

/// A failure on a prefix of the pairs fails the whole entry.
proof fn lemma_nav_pairs_none(entries: Seq<(Option<String>, PlainVal)>, i: int)
    requires
        0 <= i <= entries.len(),
        spec_nav_pairs(entries.subrange(0, i)) is None,
    ensures
        spec_nav_pairs(entries) is None,
    decreases entries.len() - i,
{
    if i == entries.len() {
        assert(entries.subrange(0, i) =~= entries);
    } else {
        assert(entries.subrange(0, i + 1).drop_last() =~= entries.subrange(0, i));
        lemma_nav_pairs_none(entries, i + 1);
    }
}

/// A failure on a prefix of the items fails the whole list.
proof fn lemma_nav_list_none(items: Seq<PlainVal>, i: int)
    requires
        0 <= i <= items.len(),
        spec_nav_list(items.subrange(0, i)) is None,
    ensures
        spec_nav_list(items) is None,
    decreases items.len() - i,
{
    if i == items.len() {
        assert(items.subrange(0, i) =~= items);
    } else {
        assert(items.subrange(0, i + 1).drop_last() =~= items.subrange(0, i));
        lemma_nav_list_none(items, i + 1);
    }
}

/// Decodes the `nav:` list.
#[verifier::loop_isolation(false)]
fn nav_from_items(items: &Vec<PlainVal>) -> (r: Option<Vec<NavItem>>)
    ensures
        match spec_nav_list(items@) {
            None => r is None,
            Some(ns) => r matches Some(v) && v@.map_values(|n: NavItem| n.item@) == ns,
        },
{
    let n = items.len();
    let mut out: Vec<NavItem> = Vec::new();
    let mut i: usize = 0;
    proof {
        assert(items@.subrange(0, 0) =~= Seq::<PlainVal>::empty());
        assert(out@.map_values(|n: NavItem| n.item@) =~= Seq::<Seq<(String, String)>>::empty());
    }
    while i < n
        invariant
            i <= n,
            spec_nav_list(items@.subrange(0, i as int)) == Some(
                out@.map_values(|n: NavItem| n.item@),
            ),
        decreases n - i,
    {
        proof {
            assert(items@.subrange(0, i + 1).drop_last() =~= items@.subrange(0, i as int));
            assert(items@.subrange(0, i + 1).last() == items@[i as int]);
        }
        let ghost pre = out@;
        match &items[i] {
            PlainVal::Entries(es) => match nav_pairs_from(es) {
                Some(item) => {
                    out.push(NavItem { item });
                    proof {
                        assert(out@.map_values(|n: NavItem| n.item@) =~= pre.map_values(
                            |n: NavItem| n.item@,
                        ).push(out@.last().item@));
                    }
                },
                None => {
                    proof {
                        lemma_nav_list_none(items@, i + 1);
                    }
                    return None;
                },
            },
            _ => {
                proof {
                    lemma_nav_list_none(items@, i + 1);
                }
                return None;
            },
        }
        i += 1;
    }
    proof {
        assert(items@.subrange(0, n as int) =~= items@);
    }
    Some(out)
}

/// A failure on a prefix of the entries fails the whole document.
proof fn lemma_config_fold_none(entries: Seq<(Option<String>, PlainVal)>, i: int)
    requires
        0 <= i <= entries.len(),
        spec_config_fold(entries.subrange(0, i)) is None,
    ensures
        spec_config_fold(entries) is None,
    decreases entries.len() - i,
{
    if i == entries.len() {
        assert(entries.subrange(0, i) =~= entries);
    } else {
        assert(entries.subrange(0, i + 1).drop_last() =~= entries.subrange(0, i));
        lemma_config_fold_none(entries, i + 1);
    }
}

/// Decodes a project configuration document.  `None` stands for a
/// document that does not decode; the caller treats a missing file as the
/// default configuration instead.
#[verifier::loop_isolation(false)]
pub fn project_config_from_yaml(s: &str) -> (r: Option<ProjectConfig>)
    ensures
        match yaml_plain_of(s@) {
            None => r is None,
            Some(p) => match spec_config_decode(p) {
                None => r is None,
                Some(c) => r matches Some(cfg) && cfg.model() == c,
            },
        },
{
    let p = match parse_plain(s) {
        Some(p) => p,
        None => {
            return None;
        },
    };
    let entries = match p {
        PlainVal::Entries(es) => es,
        _ => {
            return None;
        },
    };
    let n = entries.len();
    let mut cfg = ProjectConfig { project: None, nav: None };
    let mut i: usize = 0;
    proof {
        assert(entries@.subrange(0, 0) =~= Seq::<(Option<String>, PlainVal)>::empty());
        assert(cfg.model() =~= ConfigModel { project: None, nav: None });
    }
    while i < n
        invariant
            i <= n,
            n == entries@.len(),
            spec_config_fold(entries@.subrange(0, i as int)) == Some(cfg.model()),
        decreases n - i,
    {
        proof {
            assert(entries@.subrange(0, i + 1).drop_last() =~= entries@.subrange(0, i as int));
            assert(entries@.subrange(0, i + 1).last() == entries@[i as int]);
        }
        let k = match &entries[i].0 {
            Some(k) => k,
            None => {
                proof {
                    lemma_config_fold_none(entries@, i + 1);
                }
                return None;
            },
        };
        if str_eq(k.as_str(), "project") {
            match &entries[i].1 {
                PlainVal::Null => {
                    cfg = ProjectConfig { project: None, ..cfg };
                },
                PlainVal::Entries(es) => match meta_from_entries(es) {
                    Some(m) => {
                        cfg = ProjectConfig { project: Some(m), ..cfg };
                    },
                    None => {
                        proof {
                            lemma_config_fold_none(entries@, i + 1);
                        }
                        return None;
                    },
                },
                _ => {
                    proof {
                        lemma_config_fold_none(entries@, i + 1);
                    }
                    return None;
                },
            }
        } else if str_eq(k.as_str(), "nav") {
            match &entries[i].1 {
                PlainVal::Null => {
                    cfg = ProjectConfig { nav: None, ..cfg };
                },
                PlainVal::List(items) => match nav_from_items(items) {
                    Some(ns) => {
                        cfg = ProjectConfig { nav: Some(ns), ..cfg };
                    },
                    None => {
                        proof {
                            lemma_config_fold_none(entries@, i + 1);
                        }
                        return None;
                    },
                },
                _ => {
                    proof {
                        lemma_config_fold_none(entries@, i + 1);
                    }
                    return None;
                },
            }
        }
        proof {
            assert(spec_config_fold(entries@.subrange(0, i + 1)) =~= Some(cfg.model()));
        }
        i += 1;
    }
    proof {
        assert(entries@.subrange(0, n as int) =~= entries@);
    }
    Some(cfg)
}

} // verus!
