//! Pages and their heading outlines.
//!
//! A page is one rendered unit: frontmatter, outline, HTML body.  The
//! outline is the two-tier grouping of the document's headings: a heading
//! opens a new top-level entry unless its level is strictly greater than
//! the current top-level entry's, in which case it joins that entry's flat
//! list of children.

use crate::frontmatter::{spec_empty_fm, FmModel, Frontmatter};
use vstd::prelude::*;

verus! {

/// One extracted heading: its level (1 to 6), its anchor id (unique within
/// the document), its plain-text title, and — for top-level outline
/// entries — its directly nested children.
pub struct PageHeading {
    pub level: u8,
    pub id: String,
    pub title: String,
    pub children: Vec<PageHeading>,
}

/// The abstract value of one heading, children left aside.
#[verifier::ext_equal]
pub struct HeadingModel {
    pub level: int,
    pub id: Seq<char>,
    pub title: Seq<char>,
}

/// The abstract value of one top-level outline entry.
#[verifier::ext_equal]
pub struct TopEntryModel {
    pub heading: HeadingModel,
    pub children: Seq<HeadingModel>,
}

impl PageHeading {
    /// The heading itself, children left aside.
    pub open spec fn model(self) -> HeadingModel {
        HeadingModel { level: self.level as int, id: self.id@, title: self.title@ }
    }

    /// The heading as a top-level outline entry.
    pub open spec fn top_model(self) -> TopEntryModel {
        TopEntryModel {
            heading: self.model(),
            children: self.children@.map_values(|c: PageHeading| c.model()),
        }
    }

    /// A heading fresh from extraction: no children yet.
    pub open spec fn is_flat(self) -> bool {
        self.children@.len() == 0
    }

    /// An outline entry: all children are leaves, so the outline never
    /// nests deeper than two tiers.
    pub open spec fn two_tier(self) -> bool {
        forall|i: int| 0 <= i < self.children@.len() ==> (#[trigger] self.children@[i]).is_flat()
    }
}

/// The two-tier outline of a flat, document-ordered heading sequence.
/// Each heading either joins the most recent top-level entry (when its
/// level is strictly greater) or opens a new one.
pub open spec fn spec_build_tree(flat: Seq<HeadingModel>) -> Seq<TopEntryModel>
    decreases flat.len(),
{
    if flat.len() == 0 {
        Seq::empty()
    } else {
        let prev = spec_build_tree(flat.drop_last());
        let it = flat.last();
        if prev.len() == 0 {
            prev.push(TopEntryModel { heading: it, children: Seq::empty() })
        } else if it.level > prev.last().heading.level {
            prev.update(
                prev.len() - 1,
                TopEntryModel {
                    heading: prev.last().heading,
                    children: prev.last().children.push(it),
                },
            )
        } else {
            prev.push(TopEntryModel { heading: it, children: Seq::empty() })
        }
    }
}

/// Groups the flat heading sequence into the two-tier outline.
#[verifier::loop_isolation(false)]
pub fn build_tree(flat: Vec<PageHeading>) -> (r: Vec<PageHeading>)
    requires
        forall|i: int| 0 <= i < flat@.len() ==> (#[trigger] flat@[i]).is_flat(),
    ensures
        r@.map_values(|h: PageHeading| h.top_model()) == spec_build_tree(
            flat@.map_values(|h: PageHeading| h.model()),
        ),
        forall|i: int| 0 <= i < r@.len() ==> (#[trigger] r@[i]).two_tier(),
{
    let ghost fms = flat@.map_values(|h: PageHeading| h.model());
    let mut rest = flat;
    let mut tree: Vec<PageHeading> = Vec::new();
    let n = rest.len();
    let mut i: usize = 0;
    while i < n
        invariant
            i <= n,
            rest@ == flat@.subrange(i as int, n as int),
            tree@.map_values(|h: PageHeading| h.top_model()) == spec_build_tree(
                fms.subrange(0, i as int),
            ),
            forall|a: int| 0 <= a < tree@.len() ==> (#[trigger] tree@[a]).two_tier(),
        decreases n - i,
    {
        let item = rest.remove(0);
        proof {
            assert(item == flat@[i as int]);
            assert(fms.subrange(0, i + 1).drop_last() =~= fms.subrange(0, i as int));
            assert(fms.subrange(0, i + 1).last() == flat@[i as int].model());
            assert(rest@ =~= flat@.subrange(i + 1, n as int));
        }
        let t_len = tree.len();
        if t_len == 0 {
            tree.push(item);
            proof {
                assert(item.top_model().children =~= Seq::<HeadingModel>::empty());
                assert(tree@.map_values(|h: PageHeading| h.top_model()) =~~= spec_build_tree(
                    fms.subrange(0, i + 1),
                ));
            }
        } else {
            let last = match tree.pop() {
                Some(l) => l,
                None => {
                    // `tree` is non-empty here.
                    proof {
                        assert(false);
                    }
                    return tree;
                },
            };
            let ghost old_tree = tree@.push(last);
            if item.level > last.level {
                let mut joined = last;
                joined.children.push(item);
                tree.push(joined);
                proof {
                    assert(joined.two_tier());
                    assert(tree@ =~= old_tree.update(old_tree.len() - 1, joined));
                    assert(joined.top_model().children =~= last.top_model().children.push(
                        item.model(),
                    ));
                    assert(tree@.map_values(|h: PageHeading| h.top_model()) =~~= spec_build_tree(
                        fms.subrange(0, i + 1),
                    ));
                }
            } else {
                tree.push(last);
                tree.push(item);
                proof {
                    assert(tree@.drop_last() =~= old_tree);
                    assert(item.top_model().children =~= Seq::<HeadingModel>::empty());
                    assert(tree@.map_values(|h: PageHeading| h.top_model()) =~~= spec_build_tree(
                        fms.subrange(0, i + 1),
                    ));
                }
            }
        }
        i += 1;
    }
    proof {
        assert(fms.subrange(0, n as int) =~= fms);
    }
    tree
}

/// A navigation link: the canonical URL of a page and its title.
pub struct NavItem {
    pub url: String,
    pub title: String,
}

/// One rendered unit: its metadata, its heading outline, and its HTML
/// body.  Identity is the source file path; a page is immutable once made.
pub struct Page {
    pub frontmatter: Frontmatter,
    pub outline: Vec<PageHeading>,
    pub content: String,
}

impl Page {
    /// A rendered page always carries a title (set from the metadata, the
    /// first level-1 heading, or the fallback), valid dates, and a
    /// two-tier outline.
    pub open spec fn wf(self) -> bool {
        &&& self.frontmatter.wf()
        &&& self.frontmatter.title is Some
        &&& forall|i: int|
            0 <= i < self.outline@.len() ==> (#[trigger] self.outline@[i]).two_tier()
    }
}

/// The models of a document's headings, once each has its unique anchor
/// id.
pub open spec fn spec_heading_models(hl: Seq<(u8, Seq<char>)>) -> Seq<HeadingModel> {
    let ids = crate::markdown::spec_assign_ids(
        hl.map_values(|p: (u8, Seq<char>)| crate::markdown::slug_of(p.1)),
    );
    Seq::new(hl.len(), |j: int| HeadingModel { level: hl[j].0 as int, id: ids[j], title: hl[j].1 })
}

/// The metadata a document decodes to before the title fallback: the
/// decoded block, or the empty record where the block is absent or does
/// not decode.
pub open spec fn spec_fm_before_fallback(content: Seq<char>) -> FmModel {
    match crate::frontmatter::spec_fm_block(content) {
        None => spec_empty_fm(),
        Some(b) => match crate::frontmatter::fm_fields_of(b) {
            None => spec_empty_fm(),
            Some(fields) => match crate::frontmatter::spec_decode_fields(fields) {
                None => spec_empty_fm(),
                Some(m) => m,
            },
        },
    }
}

/// What rendering a document produces: the decoded (or fallen-back)
/// metadata with the title fallback applied, the two-tier outline over the
/// extracted headings with their unique anchor ids, and the HTML body.
pub open spec fn spec_page_of(p: Page, content: Seq<char>) -> bool {
    let hl = crate::markdown::md_heading_list(content, "---"@);
    let fm0 = spec_fm_before_fallback(content);
    &&& p.wf()
    &&& Some(p.content@) == crate::markdown::md_html_output(
        content,
        "---"@,
        "h-"@,
        "InspiredGitHub"@,
    )
    &&& p.outline@.map_values(|h: PageHeading| h.top_model()) == spec_build_tree(
        spec_heading_models(hl),
    )
    &&& (match fm0.title {
        Some(t) => p.frontmatter.title == Some(t),
        None => p.frontmatter.title matches Some(t2) && t2@
            == crate::markdown::spec_document_title(hl),
    })
    &&& p.frontmatter.description == fm0.description
    &&& p.frontmatter.layout == fm0.layout
    &&& p.frontmatter.created_at == fm0.created_at
    &&& p.frontmatter.updated_at == fm0.updated_at
    &&& p.frontmatter.authors@ == fm0.authors
    &&& p.frontmatter.extra@ == fm0.extra
}

impl Page {
    /// Renders one document: reads its frontmatter (falling back to empty
    /// on a block that is absent or does not decode), renders the Markdown
    /// body, and groups the extracted headings into the outline.  The
    /// result fails only where the HTML serializer does.
    pub fn from_string(content: &str) -> (r: Result<Page, crate::markdown::RenderError>)
        ensures
            match r {
                Ok(p) => spec_page_of(p, content@),
                Err(_) => crate::markdown::md_html_output(
                    content@,
                    "---"@,
                    "h-"@,
                    "InspiredGitHub"@,
                ) is None,
            },
    {
        let mut headings: Vec<PageHeading> = Vec::new();
        let mut fm = match Frontmatter::read(content) {
            Some(f) => f,
            None => Frontmatter::default(),
        };
        proof {
            assert(fm.model() =~= spec_fm_before_fallback(content@));
        }
        let html = match crate::markdown::render_html(content, &mut headings, &mut fm) {
            Ok(h) => h,
            Err(e) => {
                return Err(e);
            },
        };
        let ghost hl = crate::markdown::md_heading_list(content@, "---"@);
        proof {
            assert(headings@.map_values(|h: PageHeading| h.model()) =~~= spec_heading_models(hl));
        }
        let outline = build_tree(headings);
        Ok(Page { frontmatter: fm, outline, content: html })
    }
}

} // verus!
