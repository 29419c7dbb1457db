//! Markdown rendering: link rewriting, heading extraction with unique
//! anchor ids, title fallback, and HTML serialization through comrak.

use crate::frontmatter::Frontmatter;
use crate::page::PageHeading;
use crate::text::{str_eq, chars_vec, string_from_chars};
use comrak::nodes::NodeValue;
use comrak::options::Plugins;
use comrak::plugins::syntect::SyntectAdapter;
use comrak::{format_html_with_plugins, parse_document, Arena, Options};
use vstd::prelude::*;
use vstd::set_lib::lemma_len_subset;

verus! {

broadcast use vstd::set::group_set_axioms;

/// Rendering a document can fail only when the HTML serializer reports an
/// error.
#[derive(Clone, Copy, Debug, PartialEq, Eq, Structural)]
pub enum RenderError {
    Html,
}

/// Every occurrence of the literal `.md` replaced by `/`, scanning left to
/// right: internal links written as `foo.md` become extensionless `foo/`.
pub open spec fn spec_rewrite(s: Seq<char>) -> Seq<char>
    decreases s.len(),
{
    if s.len() == 0 {
        Seq::empty()
    } else if s.len() >= 3 && s[0] == '.' && s[1] == 'm' && s[2] == 'd' {
        seq!['/'] + spec_rewrite(s.skip(3))
    } else {
        seq![s[0]] + spec_rewrite(s.skip(1))
    }
}

/// Rewrites every literal `.md` in `s` to `/`.
#[verifier::loop_isolation(false)]
pub fn rewrite_links(s: &str) -> (r: String)
    ensures
        r@ == spec_rewrite(s@),
{
    let cs = chars_vec(s);
    let n = cs.len();
    let mut out: Vec<char> = Vec::new();
    let mut i: usize = 0;
    proof {
        assert(cs@.skip(0) =~= cs@);
        assert(out@ + spec_rewrite(cs@) =~= spec_rewrite(cs@));
    }
    while i < n
        invariant
            i <= n,
            spec_rewrite(cs@) == out@ + spec_rewrite(cs@.skip(i as int)),
        decreases n - i,
    {
        let ghost pre = out@;
        if n >= 3 && i < n - 2 && cs[i] == '.' && cs[i + 1] == 'm' && cs[i + 2] == 'd' {
            out.push('/');
            proof {
                assert(cs@.skip(i as int).skip(3) =~= cs@.skip(i + 3));
                assert(spec_rewrite(cs@.skip(i as int)) == seq!['/'] + spec_rewrite(
                    cs@.skip(i + 3),
                ));
                assert(pre + spec_rewrite(cs@.skip(i as int)) =~= out@ + spec_rewrite(
                    cs@.skip(i + 3),
                ));
            }
            i += 3;
        } else {
            out.push(cs[i]);
            proof {
                assert(cs@.skip(i as int)[0] == cs@[i as int]);
                assert(cs@.skip(i as int).skip(1) =~= cs@.skip(i + 1));
                assert(spec_rewrite(cs@.skip(i as int)) == seq![cs@[i as int]] + spec_rewrite(
                    cs@.skip(i + 1),
                ));
                assert(pre + spec_rewrite(cs@.skip(i as int)) =~= out@ + spec_rewrite(
                    cs@.skip(i + 1),
                ));
            }
            i += 1;
        }
    }
    proof {
        assert(cs@.skip(n as int) =~= Seq::<char>::empty());
        assert(out@ =~= spec_rewrite(cs@));
    }
    string_from_chars(&out)
}

/// `s` holds the literal `.md` somewhere.
pub open spec fn spec_has_md(s: Seq<char>) -> bool {
    exists|i: int|
        0 <= i && i + 3 <= s.len() && #[trigger] s[i] == '.' && s[i + 1] == 'm' && s[i + 2] == 'd'
}

/// The head of a rewritten text: a slash where the text starts with
/// `.md`, the first character otherwise.
proof fn lemma_rewrite_head(s: Seq<char>)
    requires
        s.len() > 0,
    ensures
        spec_rewrite(s).len() > 0,
        spec_rewrite(s)[0] == '/' || spec_rewrite(s)[0] == s[0],
        spec_rewrite(s)[0] == s[0] ==> spec_rewrite(s) == seq![s[0]] + spec_rewrite(s.skip(1))
            && !(s.len() >= 3 && s[0] == '.' && s[1] == 'm' && s[2] == 'd'),
{
    if s.len() >= 3 && s[0] == '.' && s[1] == 'm' && s[2] == 'd' {
        if spec_rewrite(s)[0] == s[0] {
            assert((seq!['/'] + spec_rewrite(s.skip(3)))[0] == '/');
        }
    } else {
        assert((seq![s[0]] + spec_rewrite(s.skip(1)))[0] == s[0]);
    }
}

/// Link rewriting is complete: the rewritten text holds no literal `.md`
/// any more.
pub proof fn lemma_rewrite_removes_md(s: Seq<char>)
    ensures
        !spec_has_md(spec_rewrite(s)),
    decreases s.len(),
{
    let r = spec_rewrite(s);
    if s.len() == 0 {
        return ;
    }
    if s.len() >= 3 && s[0] == '.' && s[1] == 'm' && s[2] == 'd' {
        let tail = spec_rewrite(s.skip(3));
        lemma_rewrite_removes_md(s.skip(3));
        assert(r == seq!['/'] + tail);
        if spec_has_md(r) {
            let i = choose|i: int|
                0 <= i && i + 3 <= r.len() && #[trigger] r[i] == '.' && r[i + 1] == 'm' && r[i
                    + 2] == 'd';
            assert(r[0] == '/');
            assert(i >= 1);
            assert(tail[i - 1] == '.' && tail[i] == 'm' && tail[i + 1] == 'd');
            assert(spec_has_md(tail));
        }
    } else {
        let tail = spec_rewrite(s.skip(1));
        lemma_rewrite_removes_md(s.skip(1));
        assert(r == seq![s[0]] + tail);
        if spec_has_md(r) {
            let i = choose|i: int|
                0 <= i && i + 3 <= r.len() && #[trigger] r[i] == '.' && r[i + 1] == 'm' && r[i
                    + 2] == 'd';
            if i >= 1 {
                assert(tail[i - 1] == '.' && tail[i] == 'm' && tail[i + 1] == 'd');
                assert(spec_has_md(tail));
            } else {
                // the occurrence would start at the copied character, so
                // the source itself would have started with `.md`
                assert(s[0] == '.');
                assert(tail.len() >= 2);
                assert(s.skip(1).len() > 0);
                lemma_rewrite_head(s.skip(1));
                assert(tail[0] == 'm');
                assert(s.skip(1)[0] == 'm');
                assert(s[1] == 'm');
                let tail2 = spec_rewrite(s.skip(1).skip(1));
                assert(tail == seq![s[1]] + tail2);
                assert(tail2[0] == 'd');
                assert(s.skip(1).skip(1) =~= s.skip(2));
                assert(s.skip(2).len() > 0);
                lemma_rewrite_head(s.skip(2));
                assert(s[2] == 'd');
                assert(s.len() >= 3);
                assert(false);
            }
        }
    }
}

/// The character of one decimal digit.
pub open spec fn spec_digit_char(d: int) -> char {
    if d == 0 {
        '0'
    } else if d == 1 {
        '1'
    } else if d == 2 {
        '2'
    } else if d == 3 {
        '3'
    } else if d == 4 {
        '4'
    } else if d == 5 {
        '5'
    } else if d == 6 {
        '6'
    } else if d == 7 {
        '7'
    } else if d == 8 {
        '8'
    } else {
        '9'
    }
}

/// The decimal numeral of `n`, most significant digit first.
pub open spec fn spec_dec(n: nat) -> Seq<char>
    decreases n,
{
    if n < 10 {
        seq![spec_digit_char(n as int)]
    } else {
        spec_dec(n / 10) + seq![spec_digit_char((n % 10) as int)]
    }
}

/// The numeral is never empty.
proof fn lemma_dec_len(n: nat)
    ensures
        spec_dec(n).len() >= 1,
    decreases n,
{
    if n >= 10 {
        lemma_dec_len(n / 10);
    }
}

/// Distinct numbers have distinct numerals.
proof fn lemma_dec_inj(a: nat, b: nat)
    requires
        spec_dec(a) == spec_dec(b),
    ensures
        a == b,
    decreases a,
{
    lemma_dec_len(a);
    lemma_dec_len(b);
    if a < 10 && b < 10 {
        assert(spec_dec(a) == seq![spec_digit_char(a as int)]);
        assert(spec_dec(b) == seq![spec_digit_char(b as int)]);
        assert(seq![spec_digit_char(a as int)][0] == spec_digit_char(a as int));
        assert(seq![spec_digit_char(b as int)][0] == spec_digit_char(b as int));
        assert(spec_dec(a)[0] == spec_dec(b)[0]);
        assert(spec_digit_char(a as int) == spec_digit_char(b as int));
        assert(a == b);
    } else if a < 10 && b >= 10 {
        lemma_dec_len(b / 10);
        assert(spec_dec(b).len() >= 2);
        assert(false);
    } else if a >= 10 && b < 10 {
        lemma_dec_len(a / 10);
        assert(spec_dec(a).len() >= 2);
        assert(false);
    } else {
        lemma_dec_len(a / 10);
        lemma_dec_len(b / 10);
        assert(spec_dec(a) == spec_dec(a / 10) + seq![spec_digit_char((a % 10) as int)]);
        assert(spec_dec(b) == spec_dec(b / 10) + seq![spec_digit_char((b % 10) as int)]);
        assert(spec_dec(a).last() == spec_digit_char((a % 10) as int));
        assert(spec_dec(b).last() == spec_digit_char((b % 10) as int));
        assert(a % 10 == b % 10);
        assert(spec_dec(a).drop_last() =~= spec_dec(a / 10));
        assert(spec_dec(b).drop_last() =~= spec_dec(b / 10));
        lemma_dec_inj(a / 10, b / 10);
        assert(a / 10 == b / 10);
        vstd::arithmetic::div_mod::lemma_fundamental_div_mod(a as int, 10);
        vstd::arithmetic::div_mod::lemma_fundamental_div_mod(b as int, 10);
        assert(a == b);
    }
}

/// One decimal digit as a character.
fn digit_char(d: usize) -> (c: char)
    requires
        d < 10,
    ensures
        c == spec_digit_char(d as int),
{
    if d == 0 {
        '0'
    } else if d == 1 {
        '1'
    } else if d == 2 {
        '2'
    } else if d == 3 {
        '3'
    } else if d == 4 {
        '4'
    } else if d == 5 {
        '5'
    } else if d == 6 {
        '6'
    } else if d == 7 {
        '7'
    } else if d == 8 {
        '8'
    } else {
        '9'
    }
}

/// Appends the decimal numeral of `n` to `out`.
fn push_dec(n: usize, out: &mut Vec<char>)
    ensures
        final (out)@ == old(out)@ + spec_dec(n as nat),
    decreases n,
{
    let ghost pre = out@;
    if n >= 10 {
        push_dec(n / 10, out);
    }
    out.push(digit_char(n % 10));
    proof {
        if n >= 10 {
            assert(out@ =~= pre + spec_dec(n as nat));
        } else {
            assert(out@ =~= pre + spec_dec(n as nat));
        }
    }
}

/// An anchor id candidate: the base slug, `-`, and a numeral.
pub open spec fn spec_cand(base: Seq<char>, k: nat) -> Seq<char> {
    base + seq!['-'] + spec_dec(k)
}

/// Probes candidates `base-k`, `base-(k+1)`, ... for one that is not yet
/// used, giving up (only nominally — see `lemma_probe_ok`) when the fuel
/// runs out.
pub open spec fn spec_probe(used: Seq<Seq<char>>, base: Seq<char>, k: nat, fuel: nat) -> Option<
    Seq<char>,
>
    decreases fuel,
{
    if fuel == 0 {
        None
    } else if !used.contains(spec_cand(base, k)) {
        Some(spec_cand(base, k))
    } else {
        spec_probe(used, base, k + 1, (fuel - 1) as nat)
    }
}

/// The id assigned to a heading whose slug is `base` when the ids in
/// `used` are already taken: `base` itself where it is free, else the
/// first free `base-1`, `base-2`, ...
pub open spec fn spec_unique_id(used: Seq<Seq<char>>, base: Seq<char>) -> Seq<char> {
    if !used.contains(base) {
        base
    } else {
        spec_probe(used, base, 1, (used.len() + 1) as nat).unwrap()
    }
}

/// Candidates with distinct numbers are distinct strings.
proof fn lemma_cand_inj(base: Seq<char>, j: nat, k: nat)
    requires
        spec_cand(base, j) == spec_cand(base, k),
    ensures
        j == k,
{
    let cj = spec_cand(base, j);
    let ck = spec_cand(base, k);
    assert(cj.subrange(base.len() as int + 1, cj.len() as int) =~= spec_dec(j));
    assert(ck.subrange(base.len() as int + 1, ck.len() as int) =~= spec_dec(k));
    lemma_dec_inj(j, k);
}

/// Pigeonhole: if the candidates for 1, ..., k are all among the used
/// ids, there are at least k used ids.
proof fn lemma_probe_bound(used: Seq<Seq<char>>, base: Seq<char>, k: nat)
    requires
        forall|j: nat| 1 <= j <= k ==> used.contains(#[trigger] spec_cand(base, j)),
    ensures
        k <= used.len(),
{
    let cands = Seq::new(k, |j: int| spec_cand(base, (j + 1) as nat));
    assert(cands.no_duplicates()) by {
        assert forall|x: int, y: int| 0 <= x < y < k implies cands[x] != cands[y] by {
            if cands[x] == cands[y] {
                lemma_cand_inj(base, (x + 1) as nat, (y + 1) as nat);
            }
        }
    }
    cands.unique_seq_to_set();
    assert(cands.to_set().subset_of(used.to_set())) by {
        assert forall|c: Seq<char>| cands.to_set().contains(c) implies used.to_set().contains(
            c,
        ) by {
            let x = choose|x: int| 0 <= x < cands.len() && cands[x] == c;
            assert(used.contains(spec_cand(base, (x + 1) as nat)));
        }
    }
    lemma_len_subset(cands.to_set(), used.to_set());
    used.lemma_cardinality_of_set();
}

/// With fuel for every possible collision, the probe always finds a free
/// candidate.
proof fn lemma_probe_ok(used: Seq<Seq<char>>, base: Seq<char>, k: nat, fuel: nat)
    requires
        1 <= k,
        fuel + k == used.len() + 2,
        forall|j: nat| 1 <= j < k ==> used.contains(#[trigger] spec_cand(base, j)),
    ensures
        spec_probe(used, base, k, fuel) matches Some(id) && !used.contains(id),
    decreases fuel,
{
    if fuel == 0 {
        lemma_probe_bound(used, base, (k - 1) as nat);
        assert(false);
    } else if !used.contains(spec_cand(base, k)) {
    } else {
        lemma_probe_ok(used, base, k + 1, (fuel - 1) as nat);
    }
}

/// The assigned id is never one of the used ids.
pub proof fn lemma_unique_id_free(used: Seq<Seq<char>>, base: Seq<char>)
    ensures
        !used.contains(spec_unique_id(used, base)),
{
    if used.contains(base) {
        lemma_probe_ok(used, base, 1, (used.len() + 1) as nat);
    }
}

/// The ids assigned to a document's heading slugs, in order: each heading
/// gets its slug, disambiguated against all earlier ids.
pub open spec fn spec_assign_ids(slugs: Seq<Seq<char>>) -> Seq<Seq<char>>
    decreases slugs.len(),
{
    if slugs.len() == 0 {
        Seq::empty()
    } else {
        let prev = spec_assign_ids(slugs.drop_last());
        prev.push(spec_unique_id(prev, slugs.last()))
    }
}

/// Anchor uniqueness: however the headings of a document are titled, the
/// assigned ids are pairwise distinct.
pub proof fn lemma_assign_ids_unique(slugs: Seq<Seq<char>>)
    ensures
        spec_assign_ids(slugs).len() == slugs.len(),
        spec_assign_ids(slugs).no_duplicates(),
    decreases slugs.len(),
{
    if slugs.len() > 0 {
        lemma_assign_ids_unique(slugs.drop_last());
        let prev = spec_assign_ids(slugs.drop_last());
        lemma_unique_id_free(prev, slugs.last());
    }
}

/// The views of the used id strings.
pub open spec fn spec_views(used: Seq<String>) -> Seq<Seq<char>> {
    used.map_values(|u: String| u@)
}

/// Is the view of `s` among the views of `used`?
#[verifier::loop_isolation(false)]
fn contains_view(used: &Vec<String>, s: &String) -> (r: bool)
    ensures
        r == spec_views(used@).contains(s@),
{
    let n = used.len();
    let mut i: usize = 0;
    while i < n
        invariant
            i <= n,
            forall|j: int| 0 <= j < i ==> spec_views(used@)[j] != s@,
        decreases n - i,
    {
        if str_eq(used[i].as_str(), s.as_str()) {
            proof {
                assert(spec_views(used@)[i as int] == s@);
            }
            return true;
        }
        i += 1;
    }
    false
}

/// Builds the candidate id `base-k`.
fn make_cand(base: &String, k: usize) -> (r: String)
    ensures
        r@ == spec_cand(base@, k as nat),
{
    let mut out = base.clone();
    out.append("-");
    let mut digits: Vec<char> = Vec::new();
    push_dec(k, &mut digits);
    let ds = string_from_chars(&digits);
    out.append(ds.as_str());
    proof {
        reveal_strlit("-");
        assert(digits@ =~= spec_dec(k as nat));
        assert(out@ =~= spec_cand(base@, k as nat));
    }
    out
}

/// Picks the id for a heading whose slug is `base`, given the ids already
/// used: the slug itself, or the first free `-1`, `-2`, ... variant.
#[verifier::loop_isolation(false)]
fn unique_id(used: &Vec<String>, base: &String) -> (r: String)
    requires
        used@.len() < usize::MAX,
    ensures
        r@ == spec_unique_id(spec_views(used@), base@),
        !spec_views(used@).contains(r@),
{
    let ghost uv = spec_views(used@);
    if !contains_view(used, base) {
        return base.clone();
    }
    let m = used.len();
    let mut k: usize = 1;
    while k <= m
        invariant
            1 <= k <= m + 1,
            m == uv.len(),
            forall|j: nat| 1 <= j < k ==> uv.contains(#[trigger] spec_cand(base@, j)),
            spec_probe(uv, base@, 1, (m + 1) as nat) == spec_probe(
                uv,
                base@,
                k as nat,
                (m + 2 - k) as nat,
            ),
        decreases m + 1 - k,
    {
        let cand = make_cand(base, k);
        if !contains_view(used, &cand) {
            return cand;
        }
        k += 1;
    }
    let cand = make_cand(base, k);
    if !contains_view(used, &cand) {
        return cand;
    }
    proof {
        lemma_probe_bound(uv, base@, k as nat);
        assert(false);
    }
    cand
}

/// The slug of a heading text: what a fresh comrak anchorizer makes of it.
pub uninterp spec fn slug_of(t: Seq<char>) -> Seq<char>;

/// The contents of the document's text nodes, in document order, with the
/// frontmatter block (delimited by `delim`) set aside as its own node kind.
pub uninterp spec fn text_nodes_of(doc: Seq<char>, delim: Seq<char>) -> Seq<Seq<char>>;

/// The document's headings in order — level and plain text — once its text
/// nodes have been replaced, in order, by `texts` and the frontmatter node
/// by empty text.
pub uninterp spec fn md_heading_list_with(
    doc: Seq<char>,
    delim: Seq<char>,
    texts: Seq<Seq<char>>,
) -> Seq<(u8, Seq<char>)>;

/// The HTML rendering of the document, once its text nodes have been
/// replaced, in order, by `texts` and the frontmatter node by empty text,
/// with heading ids prefixed by `idp` and code fences highlighted under
/// `theme`; `None` where the serializer reports an error.
pub uninterp spec fn md_html_output_with(
    doc: Seq<char>,
    delim: Seq<char>,
    idp: Seq<char>,
    theme: Seq<char>,
    texts: Seq<Seq<char>>,
) -> Option<Seq<char>>;

/// The document's text nodes after link rewriting: each one through
/// `spec_rewrite`.
pub open spec fn spec_rewritten_texts(doc: Seq<char>, delim: Seq<char>) -> Seq<Seq<char>> {
    text_nodes_of(doc, delim).map_values(|t: Seq<char>| spec_rewrite(t))
}

/// The document's headings after link rewriting.
pub open spec fn md_heading_list(doc: Seq<char>, delim: Seq<char>) -> Seq<(u8, Seq<char>)> {
    md_heading_list_with(doc, delim, spec_rewritten_texts(doc, delim))
}

/// The document's HTML rendering after link rewriting.
pub open spec fn md_html_output(
    doc: Seq<char>,
    delim: Seq<char>,
    idp: Seq<char>,
    theme: Seq<char>,
) -> Option<Seq<char>> {
    md_html_output_with(doc, delim, idp, theme, spec_rewritten_texts(doc, delim))
}

/// Link rewriting is complete in the rendered document: no text node's
/// serialized content holds a literal `.md` any more.
pub proof fn lemma_rendered_texts_clean(doc: Seq<char>, delim: Seq<char>)
    ensures
        forall|i: int|
            0 <= i < spec_rewritten_texts(doc, delim).len() ==> !spec_has_md(
                #[trigger] spec_rewritten_texts(doc, delim)[i],
            ),
{
    assert forall|i: int| 0 <= i < spec_rewritten_texts(doc, delim).len() implies !spec_has_md(
        #[trigger] spec_rewritten_texts(doc, delim)[i],
    ) by {
        lemma_rewrite_removes_md(text_nodes_of(doc, delim)[i]);
    }
}

#[verifier::external_type_specification]
#[verifier::external_body]
pub struct ExOptions<'c>(Options<'c>);

/// Relies on `comrak::Options::default`: the parse options with the given
/// frontmatter delimiter and, where given, heading-id prefix.
#[verifier::external_body]
fn md_options(delim: &str, idp: Option<&str>) -> Options<'static> {
    let mut opts = Options::default();
    opts.extension.front_matter_delimiter = Some(delim.to_string());
    opts.extension.header_id_prefix = idp.map(|s| s.to_string());
    opts
}

/// Relies on `comrak::Anchorizer::anchorize`: a fresh anchorizer's first
/// answer depends on the heading text alone (lower-cased, spaces to
/// hyphens, problem characters removed).
#[verifier::external_body]
fn anchor_slug(text: &str) -> (r: String)
    ensures
        r@ == slug_of(text@),
{
    comrak::Anchorizer::new().anchorize(text)
}

/// Relies on `comrak::parse_document`: hands out the contents of the
/// document's text nodes, in document order.
#[verifier::external_body]
fn md_text_nodes(content: &str, delim: &str) -> (r: Vec<String>)
    ensures
        r@.map_values(|s: String| s@) == text_nodes_of(content@, delim@),
{
    let mut out: Vec<String> = Vec::new();
    let opts = md_options(delim, None);
    let arena = Arena::new();
    let root = parse_document(&arena, content, &opts);
    for n in root.descendants() {
        if let NodeValue::Text(t) = &n.data().value { out.push(t.to_string()); }
    }
    out
}

/// Relies on `comrak::parse_document` and `Node::collect_text`: parses the
/// document, puts `texts` into its text nodes in order and empty text into
/// the frontmatter node, and lists the headings in document order; comrak
/// heading levels are 1 to 6.
#[verifier::external_body]
fn md_headings_with(content: &str, delim: &str, texts: &Vec<String>) -> (r: Vec<(u8, String)>)
    requires
        texts@.len() == text_nodes_of(content@, delim@).len(),
    ensures
        r@.map_values(|p: (u8, String)| (p.0, p.1@)) == md_heading_list_with(
            content@,
            delim@,
            texts@.map_values(|s: String| s@),
        ),
        forall|i: int| 0 <= i < r@.len() ==> 1 <= (#[trigger] r@[i]).0 <= 6,
{
    let mut out: Vec<(u8, String)> = Vec::new();
    let opts = md_options(delim, None);
    let arena = Arena::new();
    let root = parse_document(&arena, content, &opts); let mut i: usize = 0;
    for n in root.descendants() {
        match &mut n.data_mut().value {
            NodeValue::Text(t) => { *t = texts[i].clone().into(); i += 1; }
            NodeValue::FrontMatter(f) => *f = String::new(),
            _ => (),
        }
    }
    for n in root.descendants() {
        if let NodeValue::Heading(h) = &n.data().value { out.push((h.level, n.collect_text())); }
    }
    out
}

/// Relies on `comrak::parse_document` and `format_html_with_plugins` with
/// the syntect highlighter: parses the document, puts `texts` into its
/// text nodes in order and empty text into the frontmatter node, and
/// serializes to HTML with heading ids prefixed by `idp`.  The highlighter
/// panics on a theme it does not know, so only the stock theme is allowed
/// in.
#[verifier::external_body]
fn md_html_with(content: &str, delim: &str, idp: &str, theme: &str, texts: &Vec<String>) -> (r:
    Option<String>)
    requires
        theme@ == "InspiredGitHub"@,
        texts@.len() == text_nodes_of(content@, delim@).len(),
    ensures
        r matches Some(h) ==> Some(h@) == md_html_output_with(
            content@,
            delim@,
            idp@,
            theme@,
            texts@.map_values(|s: String| s@),
        ),
        r is None ==> md_html_output_with(
            content@,
            delim@,
            idp@,
            theme@,
            texts@.map_values(|s: String| s@),
        ) is None,
{
    let opts = md_options(delim, Some(idp));
    let arena = Arena::new();
    let root = parse_document(&arena, content, &opts); let mut i: usize = 0;
    for n in root.descendants() {
        match &mut n.data_mut().value {
            NodeValue::Text(t) => { *t = texts[i].clone().into(); i += 1; }
            NodeValue::FrontMatter(f) => *f = String::new(),
            _ => (),
        }
    }
    let sa = SyntectAdapter::new(Some(theme));
    let mut plugins = Plugins::default(); plugins.render.codefence_syntax_highlighter = Some(&sa);
    let mut html = String::new();
    format_html_with_plugins(root, &opts, &mut html, &plugins).ok()?; Some(html)
}

/// Applies the link rewrite to each extracted text node.
#[verifier::loop_isolation(false)]
fn rewrite_all(texts: &Vec<String>) -> (r: Vec<String>)
    ensures
        r@.map_values(|s: String| s@) == texts@.map_values(|s: String| s@).map_values(
            |t: Seq<char>| spec_rewrite(t),
        ),
        r@.len() == texts@.len(),
{
    let n = texts.len();
    let mut out: Vec<String> = Vec::new();
    let mut i: usize = 0;
    while i < n
        invariant
            i <= n,
            out@.len() == i,
            forall|j: int| 0 <= j < i ==> (#[trigger] out@[j])@ == spec_rewrite(texts@[j]@),
        decreases n - i,
    {
        out.push(rewrite_links(texts[i].as_str()));
        i += 1;
    }
    proof {
        assert(out@.map_values(|s: String| s@) =~= texts@.map_values(|s: String| s@).map_values(
            |t: Seq<char>| spec_rewrite(t),
        ));
    }
    out
}

/// Gives each heading its unique anchor id: the slug of its (rewritten)
/// text, disambiguated with `-1`, `-2`, ... against all earlier ids.
#[verifier::loop_isolation(false)]
fn assign_anchor_ids(raw: &Vec<(u8, String)>) -> (r: Vec<PageHeading>)
    ensures
        r@.len() == raw@.len(),
        forall|j: int| 0 <= j < r@.len() ==> {
            &&& (#[trigger] r@[j]).level == raw@[j].0
            &&& r@[j].title@ == raw@[j].1@
            &&& r@[j].is_flat()
        },
        r@.map_values(|h: PageHeading| h.id@) == spec_assign_ids(
            raw@.map_values(|p: (u8, String)| slug_of(p.1@)),
        ),
{
    let ghost slugs = raw@.map_values(|p: (u8, String)| slug_of(p.1@));
    let n = raw.len();
    let mut ids: Vec<String> = Vec::new();
    let mut out: Vec<PageHeading> = Vec::new();
    let mut i: usize = 0;
    proof {
        assert(slugs.subrange(0, 0) =~= Seq::<Seq<char>>::empty());
        assert(spec_views(ids@) =~= spec_assign_ids(slugs.subrange(0, 0)));
    }
    while i < n
        invariant
            i <= n,
            n == raw@.len(),
            ids@.len() == i,
            out@.len() == i,
            spec_views(ids@) == spec_assign_ids(slugs.subrange(0, i as int)),
            forall|j: int| 0 <= j < i ==> (#[trigger] out@[j]).id@ == spec_views(ids@)[j],
            forall|j: int| 0 <= j < i ==> {
                &&& (#[trigger] out@[j]).level == raw@[j].0
                &&& out@[j].title@ == raw@[j].1@
                &&& out@[j].is_flat()
            },
        decreases n - i,
    {
        let base = anchor_slug(raw[i].1.as_str());
        let id = unique_id(&ids, &base);
        let ghost prev = spec_views(ids@);
        ids.push(id.clone());
        out.push(PageHeading { level: raw[i].0, id, title: raw[i].1.clone(), children: Vec::new() });
        proof {
            assert(slugs.subrange(0, i + 1).drop_last() =~= slugs.subrange(0, i as int));
            assert(slugs.subrange(0, i + 1).last() == slug_of(raw@[i as int].1@));
            assert(spec_views(ids@) =~= prev.push(spec_unique_id(prev, base@)));
            assert(spec_views(ids@) =~= spec_assign_ids(slugs.subrange(0, i + 1)));
        }
        i += 1;
    }
    proof {
        assert(slugs.subrange(0, n as int) =~= slugs);
        assert(out@.map_values(|h: PageHeading| h.id@) =~= spec_views(ids@));
    }
    out
}

/// The text of the first level-1 heading, if any.
pub open spec fn spec_first_h1(hl: Seq<(u8, Seq<char>)>) -> Option<Seq<char>>
    decreases hl.len(),
{
    if hl.len() == 0 {
        None
    } else if hl.first().0 == 1 {
        Some(hl.first().1)
    } else {
        spec_first_h1(hl.drop_first())
    }
}

/// The document title that the heading list yields: the first level-1
/// heading's text, or `Untitled Document`.
pub open spec fn spec_document_title(hl: Seq<(u8, Seq<char>)>) -> Seq<char> {
    match spec_first_h1(hl) {
        Some(t) => t,
        None => "Untitled Document"@,
    }
}

/// Finds the first level-1 heading.
#[verifier::loop_isolation(false)]
fn first_h1(hs: &Vec<(u8, String)>) -> (r: Option<String>)
    ensures
        r is Some <==> spec_first_h1(hs@.map_values(|p: (u8, String)| (p.0, p.1@))) is Some,
        r matches Some(s) ==> Some(s@) == spec_first_h1(
            hs@.map_values(|p: (u8, String)| (p.0, p.1@)),
        ),
{
    let ghost hl = hs@.map_values(|p: (u8, String)| (p.0, p.1@));
    let n = hs.len();
    let mut i: usize = 0;
    proof {
        assert(hl.skip(0) =~= hl);
    }
    while i < n
        invariant
            i <= n,
            spec_first_h1(hl) == spec_first_h1(hl.skip(i as int)),
        decreases n - i,
    {
        proof {
            assert(hl.skip(i as int).first() == hl[i as int]);
            assert(hl.skip(i as int).drop_first() =~= hl.skip(i + 1));
        }
        if hs[i].0 == 1 {
            return Some(hs[i].1.clone());
        }
        i += 1;
    }
    proof {
        assert(hl.skip(n as int) =~= Seq::<(u8, Seq<char>)>::empty());
    }
    None
}

/// The title a document falls back to: its first level-1 heading, or
/// `Untitled Document`.
fn document_title(hs: &Vec<(u8, String)>) -> (r: String)
    ensures
        r@ == spec_document_title(hs@.map_values(|p: (u8, String)| (p.0, p.1@))),
{
    match first_h1(hs) {
        Some(t) => t,
        None => "Untitled Document".to_owned(),
    }
}

/// Renders a document: rewrites internal `.md` links, strips the
/// frontmatter block from the output, appends the extracted headings (with
/// unique anchor ids) to `headings`, falls back the frontmatter title to
/// the first level-1 heading (or `Untitled Document`), and serializes to
/// HTML with highlighted code fences.
pub fn render_html(content: &str, headings: &mut Vec<PageHeading>, frontmatter: &mut Frontmatter) -> (r: Result<
    String,
    RenderError,
>)
    ensures
        ({
            let hl = md_heading_list(content@, "---"@);
            let ids = spec_assign_ids(hl.map_values(|p: (u8, Seq<char>)| slug_of(p.1)));
            &&& final (headings)@.len() == old(headings)@.len() + hl.len()
            &&& forall|j: int|
                0 <= j < old(headings)@.len() ==> final (headings)@[j] == old(headings)@[j]
            &&& forall|j: int|
                old(headings)@.len() <= j < final (headings)@.len() ==> {
                    let h = #[trigger] final (headings)@[j];
                    let k = j - old(headings)@.len();
                    &&& h.level == hl[k].0
                    &&& 1 <= h.level <= 6
                    &&& h.title@ == hl[k].1
                    &&& h.id@ == ids[k]
                    &&& h.is_flat()
                }
        }),
        ({
            let hl = md_heading_list(content@, "---"@);
            match old(frontmatter).title {
                Some(t) => final (frontmatter).title == Some(t),
                None => final (frontmatter).title matches Some(t2) && t2@ == spec_document_title(
                    hl,
                ),
            }
        }),
        final (frontmatter).description == old(frontmatter).description,
        final (frontmatter).layout == old(frontmatter).layout,
        final (frontmatter).created_at == old(frontmatter).created_at,
        final (frontmatter).updated_at == old(frontmatter).updated_at,
        final (frontmatter).authors == old(frontmatter).authors,
        final (frontmatter).extra == old(frontmatter).extra,
        old(frontmatter).wf() ==> final (frontmatter).wf(),
        match r {
            Ok(h) => Some(h@) == md_html_output(content@, "---"@, "h-"@, "InspiredGitHub"@),
            Err(_) => md_html_output(content@, "---"@, "h-"@, "InspiredGitHub"@) is None,
        },
{
    let texts = md_text_nodes(content, "---");
    let rewritten = rewrite_all(&texts);
    proof {
        assert(rewritten@.map_values(|s: String| s@) =~= spec_rewritten_texts(content@, "---"@));
    }
    let raw = md_headings_with(content, "---", &rewritten);
    let ghost hl = md_heading_list(content@, "---"@);
    proof {
        assert(hl.len() == raw@.len());
        assert forall|j: int|
            0 <= j < raw@.len() implies (#[trigger] hl[j]).0 == raw@[j].0 && hl[j].1
            == raw@[j].1@ by {
            assert(hl[j] == raw@.map_values(|p: (u8, String)| (p.0, p.1@))[j]);
        }
        assert(raw@.map_values(|p: (u8, String)| slug_of(p.1@)) =~= hl.map_values(
            |p: (u8, Seq<char>)| slug_of(p.1),
        ));
    }
    let mut hs = assign_anchor_ids(&raw);
    headings.append(&mut hs);
    if frontmatter.title.is_none() {
        let t = document_title(&raw);
        proof {
            assert(raw@.map_values(|p: (u8, String)| (p.0, p.1@)) =~= hl);
        }
        frontmatter.title = Some(t);
    }
    match md_html_with(content, "---", "h-", "InspiredGitHub", &rewritten) {
        Some(h) => Ok(h),
        None => Err(RenderError::Html),
    }
}

} // verus!
