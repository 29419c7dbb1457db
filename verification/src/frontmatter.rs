//! Frontmatter: the optional metadata block at the head of a document.
//!
//! The block sits between the first two `---` delimiters.  It is decoded
//! into a typed record; the recognised keys are `title`, `description`,
//! `layout`, `created_at`, `updated_at`, `authors` and `extra`.  A block
//! that is not a string-keyed mapping, or a recognised key with an
//! unusable value, fails the whole decode — and a malformed block never
//! aborts rendering: the document falls back to empty frontmatter.

use crate::datetime::{spec_parse_datetime, parse_datetime, DateTime};
use crate::text::{chars_vec, find_from, spec_find_from, string_from_chars, str_eq, sub_chars};
use crate::yaml::yaml_clone;
use vstd::prelude::*;

verus! {

/// Per-document metadata.  Keys beyond the typed ones are carried through
/// in `extra` for the template layer.
pub struct Frontmatter {
    pub title: Option<String>,
    pub description: Option<String>,
    pub layout: Option<String>,
    pub created_at: Option<DateTime>,
    pub updated_at: Option<DateTime>,
    pub authors: Vec<String>,
    pub extra: Vec<(String, serde_yaml::Value)>,
}

/// The abstract value of a `Frontmatter`, with the collections as
/// sequences.
#[verifier::ext_equal]
pub struct FmModel {
    pub title: Option<String>,
    pub description: Option<String>,
    pub layout: Option<String>,
    pub created_at: Option<DateTime>,
    pub updated_at: Option<DateTime>,
    pub authors: Seq<String>,
    pub extra: Seq<(String, serde_yaml::Value)>,
}

/// The model of frontmatter that is absent or empty.
pub open spec fn spec_empty_fm() -> FmModel {
    FmModel {
        title: None,
        description: None,
        layout: None,
        created_at: None,
        updated_at: None,
        authors: Seq::empty(),
        extra: Seq::empty(),
    }
}

impl Frontmatter {
    /// The abstract value of this record.
    pub open spec fn model(self) -> FmModel {
        FmModel {
            title: self.title,
            description: self.description,
            layout: self.layout,
            created_at: self.created_at,
            updated_at: self.updated_at,
            authors: self.authors@,
            extra: self.extra@,
        }
    }

    /// Any date field that is present holds an existing date and time.
    pub open spec fn wf(self) -> bool {
        (self.created_at matches Some(dt) ==> dt.wf()) && (self.updated_at matches Some(dt)
            ==> dt.wf())
    }
}

impl Default for Frontmatter {
    /// Empty frontmatter: every field absent.
    fn default() -> (r: Self)
        ensures
            r.model() == spec_empty_fm(),
            r.wf(),
    {
        let r = Frontmatter {
            title: None,
            description: None,
            layout: None,
            created_at: None,
            updated_at: None,
            authors: Vec::new(),
            extra: Vec::new(),
        };
        proof {
            assert(r.model() =~= spec_empty_fm());
        }
        r
    }
}

/// What the decoder sees of one YAML value: null, a string, a sequence of
/// (possibly) strings, a mapping with (possibly) string keys, or anything
/// else.
pub enum FieldView {
    Null,
    Text(String),
    List(Vec<Option<String>>),
    Entries(Vec<(Option<String>, serde_yaml::Value)>),
    Other,
}

/// Every item of the list is a string.
pub open spec fn spec_all_some_str(items: Seq<Option<String>>) -> bool {
    forall|i: int| 0 <= i < items.len() ==> items[i] is Some
}

/// Every key of the mapping is a string.
pub open spec fn spec_all_some_key(es: Seq<(Option<String>, serde_yaml::Value)>) -> bool {
    forall|i: int| 0 <= i < es.len() ==> (#[trigger] es[i]).0 is Some
}

/// The effect of one `key: value` entry on the partially decoded record.
/// `None` is a decode failure, which makes the whole document fall back to
/// empty frontmatter.  Unrecognised string keys are ignored.
pub open spec fn spec_apply_field(m: FmModel, k: String, fv: FieldView) -> Option<FmModel> {
    if k@ == "title"@ {
        match fv {
            FieldView::Null => Some(FmModel { title: None, ..m }),
            FieldView::Text(s) => Some(FmModel { title: Some(s), ..m }),
            _ => None,
        }
    } else if k@ == "description"@ {
        match fv {
            FieldView::Null => Some(FmModel { description: None, ..m }),
            FieldView::Text(s) => Some(FmModel { description: Some(s), ..m }),
            _ => None,
        }
    } else if k@ == "layout"@ {
        match fv {
            FieldView::Null => Some(FmModel { layout: None, ..m }),
            FieldView::Text(s) => Some(FmModel { layout: Some(s), ..m }),
            _ => None,
        }
    } else if k@ == "created_at"@ {
        match fv {
            FieldView::Null => Some(FmModel { created_at: None, ..m }),
            FieldView::Text(s) => match spec_parse_datetime(s@) {
                Some(dt) => Some(FmModel { created_at: Some(dt), ..m }),
                None => None,
            },
            _ => None,
        }
    } else if k@ == "updated_at"@ {
        match fv {
            FieldView::Null => Some(FmModel { updated_at: None, ..m }),
            FieldView::Text(s) => match spec_parse_datetime(s@) {
                Some(dt) => Some(FmModel { updated_at: Some(dt), ..m }),
                None => None,
            },
            _ => None,
        }
    } else if k@ == "authors"@ {
        match fv {
            FieldView::List(items) => if spec_all_some_str(items@) {
                Some(FmModel { authors: items@.map_values(|o: Option<String>| o.unwrap()), ..m })
            } else {
                None
            },
            _ => None,
        }
    } else if k@ == "extra"@ {
        match fv {
            FieldView::Entries(es) => if spec_all_some_key(es@) {
                Some(
                    FmModel {
                        extra: es@.map_values(
                            |p: (Option<String>, serde_yaml::Value)| (p.0.unwrap(), p.1),
                        ),
                        ..m
                    },
                )
            } else {
                None
            },
            _ => None,
        }
    } else {
        Some(m)
    }
}

/// Decoding a whole metadata block: the entries applied in order to the
/// empty record; any failing entry fails the block.
pub open spec fn spec_decode_fields(fields: Seq<(String, FieldView)>) -> Option<FmModel>
    decreases fields.len(),
{
    if fields.len() == 0 {
        Some(spec_empty_fm())
    } else {
        match spec_decode_fields(fields.drop_last()) {
            None => None,
            Some(m) => spec_apply_field(m, fields.last().0, fields.last().1),
        }
    }
}

/// A failure on a prefix of the entries fails the whole block.
proof fn lemma_decode_none(fields: Seq<(String, FieldView)>, i: int)
    requires
        0 <= i <= fields.len(),
        spec_decode_fields(fields.subrange(0, i)) is None,
    ensures
        spec_decode_fields(fields) is None,
    decreases fields.len() - i,
{
    if i == fields.len() {
        assert(fields.subrange(0, i) =~= fields);
    } else {
        assert(fields.subrange(0, i + 1).drop_last() =~= fields.subrange(0, i));
        lemma_decode_none(fields, i + 1);
    }
}

/// Applies one entry to the record.
#[verifier::loop_isolation(false)]
fn apply_field(fm: Frontmatter, k: &String, fv: FieldView) -> (r: Option<Frontmatter>)
    requires
        fm.wf(),
    ensures
        match spec_apply_field(fm.model(), *k, fv) {
            None => r is None,
            Some(m) => r matches Some(f2) && f2.model() == m,
        },
        r matches Some(f2) ==> f2.wf(),
{
    let ghost m0 = fm.model();
    let ghost fv0 = fv;
    if str_eq(k.as_str(), "title") {
        match fv {
            FieldView::Null => Some(Frontmatter { title: None, ..fm }),
            FieldView::Text(s) => Some(Frontmatter { title: Some(s), ..fm }),
            _ => None,
        }
    } else if str_eq(k.as_str(), "description") {
        match fv {
            FieldView::Null => Some(Frontmatter { description: None, ..fm }),
            FieldView::Text(s) => Some(Frontmatter { description: Some(s), ..fm }),
            _ => None,
        }
    } else if str_eq(k.as_str(), "layout") {
        match fv {
            FieldView::Null => Some(Frontmatter { layout: None, ..fm }),
            FieldView::Text(s) => Some(Frontmatter { layout: Some(s), ..fm }),
            _ => None,
        }
    } else if str_eq(k.as_str(), "created_at") {
        match fv {
            FieldView::Null => Some(Frontmatter { created_at: None, ..fm }),
            FieldView::Text(s) => match parse_datetime(s.as_str()) {
                Some(dt) => Some(Frontmatter { created_at: Some(dt), ..fm }),
                None => None,
            },
            _ => None,
        }
    } else if str_eq(k.as_str(), "updated_at") {
        match fv {
            FieldView::Null => Some(Frontmatter { updated_at: None, ..fm }),
            FieldView::Text(s) => match parse_datetime(s.as_str()) {
                Some(dt) => Some(Frontmatter { updated_at: Some(dt), ..fm }),
                None => None,
            },
            _ => None,
        }
    } else if str_eq(k.as_str(), "authors") {
        match fv {
            FieldView::List(items) => {
                let n = items.len();
                let mut authors: Vec<String> = Vec::new();
                let mut i: usize = 0;
                while i < n
                    invariant
                        i <= n,
                        n == items@.len(),
                        forall|j: int| 0 <= j < i ==> items@[j] is Some,
                        authors@ == items@.subrange(0, i as int).map_values(
                            |o: Option<String>| o.unwrap(),
                        ),
                    decreases n - i,
                {
                    match &items[i] {
                        Some(s) => {
                            authors.push(s.clone());
                            proof {
                                assert(authors@ =~= items@.subrange(0, i + 1 as int).map_values(
                                    |o: Option<String>| o.unwrap(),
                                ));
                            }
                        },
                        None => {
                            proof {
                                assert(!spec_all_some_str(items@));
                            }
                            return None;
                        },
                    }
                    i += 1;
                }
                proof {
                    assert(items@.subrange(0, n as int) =~= items@);
                    assert(spec_all_some_str(items@));
                }
                let r = Frontmatter { authors, ..fm };
                proof {
                    assert(r.model() =~= spec_apply_field(m0, *k, fv0).unwrap());
                }
                Some(r)
            },
            _ => None,
        }
    } else if str_eq(k.as_str(), "extra") {
        match fv {
            FieldView::Entries(es) => {
                let n = es.len();
                let mut extra: Vec<(String, serde_yaml::Value)> = Vec::new();
                let mut i: usize = 0;
                while i < n
                    invariant
                        i <= n,
                        n == es@.len(),
                        forall|j: int| 0 <= j < i ==> (#[trigger] es@[j]).0 is Some,
                        extra@ == es@.subrange(0, i as int).map_values(
                            |p: (Option<String>, serde_yaml::Value)| (p.0.unwrap(), p.1),
                        ),
                    decreases n - i,
                {
                    match &es[i].0 {
                        Some(key) => {
                            extra.push((key.clone(), yaml_clone(&es[i].1)));
                            proof {
                                assert(extra@ =~= es@.subrange(0, i + 1 as int).map_values(
                                    |p: (Option<String>, serde_yaml::Value)| (p.0.unwrap(), p.1),
                                ));
                            }
                        },
                        None => {
                            proof {
                                assert(!spec_all_some_key(es@));
                            }
                            return None;
                        },
                    }
                    i += 1;
                }
                proof {
                    assert(es@.subrange(0, n as int) =~= es@);
                    assert(spec_all_some_key(es@));
                }
                let r = Frontmatter { extra, ..fm };
                proof {
                    assert(r.model() =~= spec_apply_field(m0, *k, fv0).unwrap());
                }
                Some(r)
            },
            _ => None,
        }
    } else {
        Some(fm)
    }
}

/// Decodes the classified entries of a metadata block, in order.
#[verifier::loop_isolation(false)]
pub fn decode_fields(fields: Vec<(String, FieldView)>) -> (r: Option<Frontmatter>)
    ensures
        match spec_decode_fields(fields@) {
            None => r is None,
            Some(m) => r matches Some(fm) && fm.model() == m,
        },
        r matches Some(fm) ==> fm.wf(),
{
    let ghost all = fields@;
    let mut fields = fields;
    let n = fields.len();
    let mut fm = Frontmatter::default();
    let mut i: usize = 0;
    proof {
        assert(all.subrange(0, 0) =~= Seq::<(String, FieldView)>::empty());
    }
    while i < n
        invariant
            i <= n,
            n == all.len(),
            fields@ == all.subrange(i as int, n as int),
            spec_decode_fields(all.subrange(0, i as int)) == Some(fm.model()),
            fm.wf(),
        decreases n - i,
    {
        let (k, fv) = fields.remove(0);
        proof {
            assert((k, fv) == all[i as int]);
            assert(all.subrange(0, i + 1).drop_last() =~= all.subrange(0, i as int));
            assert(all.subrange(0, i + 1).last() == all[i as int]);
        }
        match apply_field(fm, &k, fv) {
            Some(f2) => {
                fm = f2;
            },
            None => {
                proof {
                    lemma_decode_none(all, i + 1);
                }
                return None;
            },
        }
        proof {
            assert(fields@ =~= all.subrange(i + 1, n as int));
        }
        i += 1;
    }
    proof {
        assert(all.subrange(0, n as int) =~= all);
    }
    Some(fm)
}

/// What the YAML decoder makes of a metadata block: `None` where the
/// block is not a mapping with string keys only; otherwise each entry's
/// key and what the decoder sees of its value, in document order.
pub uninterp spec fn fm_fields_of(block: Seq<char>) -> Option<Seq<(String, FieldView)>>;

/// Relies on the `serde_yaml::Value` variants: reads what the decoder
/// sees of one value, one arm per variant.
#[verifier::external_body]
fn classify_value(v: &serde_yaml::Value) -> FieldView {
    match v {
        serde_yaml::Value::Null => FieldView::Null,
        serde_yaml::Value::String(s) => FieldView::Text(s.clone()),
        serde_yaml::Value::Sequence(xs) => FieldView::List(
            xs.iter().map(|x| x.as_str().map(|s| s.to_string())).collect(),
        ),
        serde_yaml::Value::Mapping(m) => FieldView::Entries(
            m.iter().map(|(k, val)| (k.as_str().map(|s| s.to_string()), val.clone())).collect(),
        ),
        _ => FieldView::Other,
    }
}

/// Relies on `serde_yaml::from_str` and `Value::as_mapping`/`as_str`:
/// parses the block, demands a mapping whose keys are all strings, and
/// hands each entry out with its value classified.
#[verifier::external_body]
fn block_fields(block: &str) -> (r: Option<Vec<(String, FieldView)>>)
    ensures
        match r {
            Some(v) => Some(v@) == fm_fields_of(block@),
            None => fm_fields_of(block@) is None,
        },
{
    let v: serde_yaml::Value = serde_yaml::from_str(block).ok()?;
    let m = v.as_mapping()?;
    let mut out: Vec<(String, FieldView)> = Vec::new();
    for (k, val) in m.iter() {
        out.push((k.as_str()?.to_string(), classify_value(val)));
    }
    Some(out)
}

/// Decodes a metadata block: `None` where it is not a string-keyed YAML
/// mapping, or where a recognised key holds an unusable value; the caller
/// then falls back to empty frontmatter.
pub fn frontmatter_from_block(block: &str) -> (r: Option<Frontmatter>)
    ensures
        match fm_fields_of(block@) {
            None => r is None,
            Some(fields) => match spec_decode_fields(fields) {
                None => r is None,
                Some(m) => r matches Some(fm) && fm.model() == m,
            },
        },
        r matches Some(fm) ==> fm.wf(),
{
    match block_fields(block) {
        Some(fields) => decode_fields(fields),
        None => None,
    }
}

/// The three dashes that delimit a metadata block.
pub open spec fn spec_dashes() -> Seq<char> {
    seq!['-', '-', '-']
}

/// The metadata block of a document: the text between the first two `---`
/// delimiter occurrences (to the end of the document if a second one never
/// comes).  `None` where the document has no delimiter at all.
pub open spec fn spec_fm_block(s: Seq<char>) -> Option<Seq<char>> {
    match spec_find_from(s, spec_dashes(), 0) {
        None => None,
        Some(i) => {
            let rest = s.subrange(i + 3, s.len() as int);
            match spec_find_from(rest, spec_dashes(), 0) {
                None => Some(rest),
                Some(j) => Some(rest.subrange(0, j)),
            }
        },
    }
}

impl Frontmatter {
    /// Extracts the metadata block of `markdown` and decodes it.  `None`
    /// where there is no block, or where the block does not decode; the
    /// caller then falls back to empty frontmatter.
    pub fn read(markdown: &str) -> (r: Option<Frontmatter>)
        ensures
            match spec_fm_block(markdown@) {
                None => r is None,
                Some(b) => match fm_fields_of(b) {
                    None => r is None,
                    Some(fields) => match spec_decode_fields(fields) {
                        None => r is None,
                        Some(m) => r matches Some(fm) && fm.model() == m,
                    },
                },
            },
            r matches Some(fm) ==> fm.wf(),
    {
        let cs = chars_vec(markdown);
        let dashes: Vec<char> = vec!['-', '-', '-'];
        proof {
            assert(dashes@ =~= spec_dashes());
        }
        let i = match find_from(&cs, &dashes, 0) {
            Some(i) => i,
            None => {
                return None;
            },
        };
        let len = cs.len();
        let rest = sub_chars(&cs, i + 3, len);
        let block_chars = match find_from(&rest, &dashes, 0) {
            Some(j) => sub_chars(&rest, 0, j),
            None => rest,
        };
        proof {
            assert(Some(block_chars@) == spec_fm_block(markdown@));
        }
        let block = string_from_chars(&block_chars);
        frontmatter_from_block(block.as_str())
    }
}

} // verus!
