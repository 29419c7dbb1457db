//! The library: the full in-memory mapping from source path to rendered
//! page, built once per run.
//!
//! Keys are unique, every key names a Markdown file, and every page is
//! well formed (in particular, it has a title — which the navigation
//! builder relies on).

use crate::markdown::RenderError;
use crate::page::{spec_page_of, NavItem, Page};
use crate::resolve::{filename_to_url, is_markdown_path, spec_filename_to_url, spec_is_md_path};
use crate::text::{chars_vec, starts_with_at, spec_starts_with, str_eq};
use vstd::prelude::*;

verus! {

/// The mapping from source path to page, in insertion order.
pub struct Library {
    pub entries: Vec<(String, Page)>,
}

/// The first page stored under key `k`, scanning in order.
pub open spec fn spec_find_page(entries: Seq<(String, Page)>, k: Seq<char>) -> Option<Page>
    decreases entries.len(),
{
    if entries.len() == 0 {
        None
    } else if entries.first().0@ == k {
        Some(entries.first().1)
    } else {
        spec_find_page(entries.drop_first(), k)
    }
}

impl Library {
    /// Unique Markdown-path keys, and every page well formed.
    pub open spec fn wf(self) -> bool {
        &&& forall|i: int, j: int|
            0 <= i < j < self.entries@.len() ==> (#[trigger] self.entries@[i]).0@ != (
            #[trigger] self.entries@[j]).0@
        &&& forall|i: int|
            0 <= i < self.entries@.len() ==> (#[trigger] self.entries@[i]).1.wf()
        &&& forall|i: int|
            0 <= i < self.entries@.len() ==> spec_is_md_path((#[trigger] self.entries@[i]).0@)
    }

    /// Is some page stored under key `k`?
    pub open spec fn contains_key(self, k: Seq<char>) -> bool {
        spec_find_page(self.entries@, k) is Some
    }

    /// An empty library.
    pub fn new() -> (r: Library)
        ensures
            r.wf(),
            r.entries@.len() == 0,
    {
        Library { entries: Vec::new() }
    }

    /// Number of pages.
    pub fn len(&self) -> (r: usize)
        ensures
            r == self.entries@.len(),
    {
        self.entries.len()
    }

    /// Looks a page up by its source path.
    pub fn get(&self, path: &str) -> (r: Option<&Page>)
        ensures
            match r {
                Some(p) => spec_find_page(self.entries@, path@) == Some(*p),
                None => spec_find_page(self.entries@, path@) is None,
            },
    {
        let ghost es = self.entries@;
        let n = self.entries.len();
        let mut i: usize = 0;
        proof {
            assert(es.skip(0) =~= es);
        }
        while i < n
            invariant
                i <= n,
                n == es.len(),
                es == self.entries@,
                spec_find_page(es, path@) == spec_find_page(es.skip(i as int), path@),
            decreases n - i,
        {
            proof {
                assert(es.skip(i as int).first() == es[i as int]);
                assert(es.skip(i as int).drop_first() =~= es.skip(i + 1));
            }
            if str_eq(self.entries[i].0.as_str(), path) {
                return Some(&self.entries[i].1);
            }
            i += 1;
        }
        proof {
            assert(es.skip(n as int) =~= Seq::<(String, Page)>::empty());
        }
        None
    }

    /// Stores a page under a path, replacing any page already there.
    #[verifier::loop_isolation(false)]
    pub fn insert(&mut self, path: String, page: Page)
        requires
            old(self).wf(),
            page.wf(),
            spec_is_md_path(path@),
        ensures
            final (self).wf(),
            spec_find_page(final (self).entries@, path@) == Some(page),
            forall|k: Seq<char>|
                k != path@ ==> #[trigger] spec_find_page(final (self).entries@, k)
                    == spec_find_page(old(self).entries@, k),
            forall|j: int|
                0 <= j < final (self).entries@.len() ==> ((#[trigger] final (self).entries@[j]).0@
                    == path@ && final (self).entries@[j].1 == page) || exists|i: int|
                    0 <= i < old(self).entries@.len() && #[trigger] old(self).entries@[i]
                    == final (self).entries@[j],
    {
        let ghost es0 = self.entries@;
        let n = self.entries.len();
        let mut i: usize = 0;
        while i < n
            invariant
                i <= n,
                n == es0.len(),
                self.entries@ == es0,
                forall|j: int| 0 <= j < i ==> (#[trigger] es0[j]).0@ != path@,
            decreases n - i,
        {
            if str_eq(self.entries[i].0.as_str(), path.as_str()) {
                self.entries.set(i, (path, page));
                proof {
                    lemma_find_at(self.entries@, path@, i as int);
                    assert forall|k: Seq<char>| k != path@ implies #[trigger] spec_find_page(
                        self.entries@,
                        k,
                    ) == spec_find_page(es0, k) by {
                        lemma_find_update_other(es0, self.entries@, k, i as int);
                    }
                }
                return ;
            }
            i += 1;
        }
        self.entries.push((path, page));
        proof {
            lemma_find_at(self.entries@, path@, n as int);
            assert forall|k: Seq<char>| k != path@ implies #[trigger] spec_find_page(
                self.entries@,
                k,
            ) == spec_find_page(es0, k) by {
                lemma_find_push_other(es0, (path, page), k);
            }
        }
    }
}

/// Where all keys before `i` differ from `k` and entry `i` has key `k`,
/// the lookup lands on entry `i`.
proof fn lemma_find_at(es: Seq<(String, Page)>, k: Seq<char>, i: int)
    requires
        0 <= i < es.len(),
        es[i].0@ == k,
        forall|j: int| 0 <= j < i ==> (#[trigger] es[j]).0@ != k,
    ensures
        spec_find_page(es, k) == Some(es[i].1),
    decreases i,
{
    if i > 0 {
        assert(es.drop_first()[i - 1] == es[i]);
        assert forall|j: int| 0 <= j < i - 1 implies (#[trigger] es.drop_first()[j]).0@ != k by {
            assert(es.drop_first()[j] == es[j + 1]);
        }
        lemma_find_at(es.drop_first(), k, i - 1);
    }
}

/// Updating one entry leaves lookups of other keys alone, as long as the
/// update keeps the key.
proof fn lemma_find_update_other(es: Seq<(String, Page)>, es2: Seq<(String, Page)>, k: Seq<char>, i: int)
    requires
        0 <= i < es.len(),
        es2.len() == es.len(),
        forall|j: int| 0 <= j < es.len() && j != i ==> es2[j] == es[j],
        es2[i].0@ == es[i].0@,
        es[i].0@ != k,
    ensures
        spec_find_page(es2, k) == spec_find_page(es, k),
    decreases es.len(),
{
    if es.len() > 0 {
        if i == 0 {
            assert(es2.first().0@ == es.first().0@);
            assert(es2.drop_first() =~= es.drop_first());
        } else {
            assert(es2.first() == es.first());
            if es.first().0@ != k {
                assert forall|j: int|
                    0 <= j < es.drop_first().len() && j != i - 1 implies es2.drop_first()[j]
                    == es.drop_first()[j] by {
                    assert(es2.drop_first()[j] == es2[j + 1]);
                    assert(es.drop_first()[j] == es[j + 1]);
                }
                assert(es2.drop_first()[i - 1] == es2[i]);
                assert(es.drop_first()[i - 1] == es[i]);
                lemma_find_update_other(es.drop_first(), es2.drop_first(), k, i - 1);
            }
        }
    }
}

/// Appending an entry with a different key leaves a lookup alone.
proof fn lemma_find_push_other(es: Seq<(String, Page)>, e: (String, Page), k: Seq<char>)
    requires
        e.0@ != k,
    ensures
        spec_find_page(es.push(e), k) == spec_find_page(es, k),
    decreases es.len(),
{
    if es.len() == 0 {
        assert(es.push(e).len() == 1);
        assert(es.push(e).first() == e);
        assert(es.push(e).drop_first() =~= Seq::<(String, Page)>::empty());
        assert(spec_find_page(Seq::<(String, Page)>::empty(), k) is None);
    } else {
        assert(es.push(e).first() == es.first());
        if es.first().0@ == k {
            assert(spec_find_page(es.push(e), k) == Some(es.first().1));
        } else {
            assert(es.push(e).drop_first() =~= es.drop_first().push(e));
            lemma_find_push_other(es.drop_first(), e, k);
            assert(spec_find_page(es.push(e), k) == spec_find_page(es.drop_first().push(e), k));
        }
    }
}

/// Every entry of the library is the rendering of one of the given source
/// files, stored under that file's path.
pub open spec fn spec_pages_from(entries: Seq<(String, Page)>, files: Seq<(String, String)>) -> bool {
    forall|j: int|
        0 <= j < entries.len() ==> exists|a: int|
            0 <= a < files.len() && (#[trigger] files[a]).0@ == (#[trigger] entries[j]).0@
                && spec_page_of(entries[j].1, files[a].1@)
}

/// Builds the library from the already-read source files: every `.md`
/// file becomes a page; other files are ignored; the first document whose
/// body fails to render aborts the whole assembly.
#[verifier::loop_isolation(false)]
pub fn assemble_library(files: &Vec<(String, String)>) -> (r: Result<Library, RenderError>)
    ensures
        match r {
            Ok(lib) => {
                &&& lib.wf()
                &&& forall|i: int|
                    0 <= i < files@.len() && spec_is_md_path((#[trigger] files@[i]).0@)
                        ==> lib.contains_key(files@[i].0@)
                &&& spec_pages_from(lib.entries@, files@)
            },
            Err(_) => exists|i: int|
                0 <= i < files@.len() && spec_is_md_path((#[trigger] files@[i]).0@)
                    && crate::markdown::md_html_output(
                    files@[i].1@,
                    "---"@,
                    "h-"@,
                    "InspiredGitHub"@,
                ) is None,
        },
{
    let n = files.len();
    let mut lib = Library::new();
    let mut i: usize = 0;
    while i < n
        invariant
            i <= n,
            n == files@.len(),
            lib.wf(),
            forall|j: int|
                0 <= j < i && spec_is_md_path((#[trigger] files@[j]).0@) ==> lib.contains_key(
                    files@[j].0@,
                ),
            spec_pages_from(lib.entries@, files@),
        decreases n - i,
    {
        if is_markdown_path(files[i].0.as_str()) {
            match Page::from_string(files[i].1.as_str()) {
                Ok(p) => {
                    let ghost pre = lib.entries@;
                    lib.insert(files[i].0.clone(), p);
                    proof {
                        assert forall|j: int| 0 <= j < lib.entries@.len() implies exists|a: int|
                            0 <= a < files@.len() && (#[trigger] files@[a]).0@ == (
                        #[trigger] lib.entries@[j]).0@ && spec_page_of(
                            lib.entries@[j].1,
                            files@[a].1@,
                        ) by {
                            if lib.entries@[j].0@ == files@[i as int].0@ && lib.entries@[j].1
                                == p {
                                assert(files@[i as int].0@ == lib.entries@[j].0@
                                    && spec_page_of(lib.entries@[j].1, files@[i as int].1@));
                            } else {
                                let i0 = choose|i0: int|
                                    0 <= i0 < pre.len() && #[trigger] pre[i0]
                                        == lib.entries@[j];
                                let a = choose|a: int|
                                    0 <= a < files@.len() && (#[trigger] files@[a]).0@ == (
                                    #[trigger] pre[i0]).0@ && spec_page_of(
                                        pre[i0].1,
                                        files@[a].1@,
                                    );
                                assert(files@[a].0@ == lib.entries@[j].0@ && spec_page_of(
                                    lib.entries@[j].1,
                                    files@[a].1@,
                                ));
                            }
                        }
                    }
                },
                Err(e) => {
                    proof {
                        assert(spec_is_md_path(files@[i as int].0@)
                            && crate::markdown::md_html_output(
                            files@[i as int].1@,
                            "---"@,
                            "h-"@,
                            "InspiredGitHub"@,
                        ) is None);
                    }
                    return Err(e);
                },
            }
        }
        i += 1;
    }
    Ok(lib)
}

/// The navigation of a directory: the (url, title) of every library page
/// whose path starts with the directory's path, in library order.
pub open spec fn spec_nav_items(entries: Seq<(String, Page)>, parent: Seq<char>, root: Seq<char>) -> Seq<
    (Seq<char>, Seq<char>),
>
    decreases entries.len(),
{
    if entries.len() == 0 {
        Seq::empty()
    } else {
        let rest = spec_nav_items(entries.drop_first(), parent, root);
        if spec_starts_with(entries.first().0@, parent) {
            seq![
                (
                    spec_filename_to_url(entries.first().0@, root),
                    entries.first().1.frontmatter.title.unwrap()@,
                ),
            ] + rest
        } else {
            rest
        }
    }
}

/// Computes the navigation for the directory of the page being rendered:
/// every page under it, as a link to its canonical URL, titled with the
/// page's title.
#[verifier::loop_isolation(false)]
pub fn site_nav(lib: &Library, parent_dir: &str, root_dir: &str) -> (r: Vec<NavItem>)
    requires
        lib.wf(),
    ensures
        r@.map_values(|it: NavItem| (it.url@, it.title@)) == spec_nav_items(
            lib.entries@,
            parent_dir@,
            root_dir@,
        ),
{
    let ghost es = lib.entries@;
    let n = lib.entries.len();
    let parent = chars_vec(parent_dir);
    let mut out: Vec<NavItem> = Vec::new();
    let mut i: usize = 0;
    proof {
        assert(es.skip(0) =~= es);
        assert(out@.map_values(|it: NavItem| (it.url@, it.title@)) + spec_nav_items(
            es,
            parent_dir@,
            root_dir@,
        ) =~= spec_nav_items(es, parent_dir@, root_dir@));
    }
    while i < n
        invariant
            i <= n,
            n == es.len(),
            es == lib.entries@,
            spec_nav_items(es, parent_dir@, root_dir@) == out@.map_values(
                |it: NavItem| (it.url@, it.title@),
            ) + spec_nav_items(es.skip(i as int), parent_dir@, root_dir@),
        decreases n - i,
    {
        let ghost pre = out@;
        proof {
            assert(es.skip(i as int).first() == es[i as int]);
            assert(es.skip(i as int).drop_first() =~= es.skip(i + 1));
        }
        let key = chars_vec(lib.entries[i].0.as_str());
        if starts_with_at(&key, &parent) {
            let url = filename_to_url(lib.entries[i].0.as_str(), root_dir);
            let title = match &lib.entries[i].1.frontmatter.title {
                Some(t) => t.clone(),
                None => {
                    // the library invariant gives every page a title
                    proof {
                        assert(false);
                    }
                    String::new()
                },
            };
            out.push(NavItem { url, title });
            proof {
                assert(out@ =~= pre.push(out@.last()));
                assert(out@.map_values(|it: NavItem| (it.url@, it.title@)) =~= pre.map_values(
                    |it: NavItem| (it.url@, it.title@),
                ).push((out@.last().url@, out@.last().title@)));
                assert(pre.map_values(|it: NavItem| (it.url@, it.title@)).push(
                    (out@.last().url@, out@.last().title@),
                ) + spec_nav_items(es.skip(i + 1), parent_dir@, root_dir@) =~= pre.map_values(
                    |it: NavItem| (it.url@, it.title@),
                ) + spec_nav_items(es.skip(i as int), parent_dir@, root_dir@));
            }
        } else {
            proof {
                assert(spec_nav_items(es.skip(i + 1), parent_dir@, root_dir@) == spec_nav_items(
                    es.skip(i as int),
                    parent_dir@,
                    root_dir@,
                ));
            }
        }
        i += 1;
    }
    proof {
        assert(es.skip(n as int) =~= Seq::<(String, Page)>::empty());
        assert(out@.map_values(|it: NavItem| (it.url@, it.title@)) + spec_nav_items(
            es.skip(n as int),
            parent_dir@,
            root_dir@,
        ) =~= out@.map_values(|it: NavItem| (it.url@, it.title@)));
    }
    out
}

} // verus!
