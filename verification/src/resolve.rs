//! Path resolution: between request URLs, source file paths, canonical
//! page URLs, and static-export output paths.
//!
//! Paths are modelled textually, with `/` as the separator.  Neither
//! direction touches the filesystem; where the outcome depends on a file
//! existing, the answer is a parameter.

use crate::text::{
    chars_vec,
    chars_eq,
    ends_with_at,
    join_path,
    spec_ends_with,
    spec_join_path,
    spec_starts_with,
    starts_with_at,
    string_from_chars,
    sub_chars,
};
use vstd::prelude::*;

verus! {

/// `s` without `suf` at its end; `s` unchanged where `suf` is not there.
pub open spec fn spec_strip_suffix(s: Seq<char>, suf: Seq<char>) -> Seq<char> {
    if spec_ends_with(s, suf) {
        s.take(s.len() - suf.len())
    } else {
        s
    }
}

/// Removes `suf` from the end of `s`, if it is there.
pub fn strip_suffix_chars(s: &Vec<char>, suf: &Vec<char>) -> (r: Vec<char>)
    ensures
        r@ == spec_strip_suffix(s@, suf@),
{
    if ends_with_at(s, suf) {
        let r = sub_chars(s, 0, s.len() - suf.len());
        proof {
            assert(r@ =~= s@.take(s@.len() - suf@.len()));
        }
        r
    } else {
        let r = sub_chars(s, 0, s.len());
        proof {
            assert(r@ =~= s@);
        }
        r
    }
}

/// `s` without its leading slashes.
pub open spec fn spec_trim_start_slashes(s: Seq<char>) -> Seq<char>
    decreases s.len(),
{
    if s.len() > 0 && s.first() == '/' {
        spec_trim_start_slashes(s.drop_first())
    } else {
        s
    }
}

/// `s` without its trailing slashes.
pub open spec fn spec_trim_end_slashes(s: Seq<char>) -> Seq<char>
    decreases s.len(),
{
    if s.len() > 0 && s.last() == '/' {
        spec_trim_end_slashes(s.drop_last())
    } else {
        s
    }
}

/// Removes leading and trailing slashes.
#[verifier::loop_isolation(false)]
fn trim_slashes(s: &Vec<char>) -> (r: Vec<char>)
    ensures
        r@ == spec_trim_end_slashes(spec_trim_start_slashes(s@)),
{
    let n = s.len();
    let mut a: usize = 0;
    proof {
        assert(s@.skip(0) =~= s@);
    }
    while a < n && s[a] == '/'
        invariant
            a <= n,
            spec_trim_start_slashes(s@) == spec_trim_start_slashes(s@.skip(a as int)),
        decreases n - a,
    {
        proof {
            assert(s@.skip(a as int).first() == s@[a as int]);
            assert(s@.skip(a as int).drop_first() =~= s@.skip(a + 1));
        }
        a += 1;
    }
    proof {
        if a == n {
            assert(s@.skip(a as int) =~= Seq::<char>::empty());
        }
        assert(spec_trim_start_slashes(s@) == s@.skip(a as int));
    }
    let mut b: usize = n;
    while b > a && s[b - 1] == '/'
        invariant
            a <= b <= n,
            spec_trim_end_slashes(s@.skip(a as int)) == spec_trim_end_slashes(
                s@.subrange(a as int, b as int),
            ),
        decreases b,
    {
        proof {
            assert(s@.subrange(a as int, b as int).last() == s@[b - 1]);
            assert(s@.subrange(a as int, b as int).drop_last() =~= s@.subrange(a as int, b - 1));
        }
        b -= 1;
    }
    proof {
        if b == a {
            assert(s@.subrange(a as int, b as int) =~= Seq::<char>::empty());
        }
        assert(spec_trim_end_slashes(s@.subrange(a as int, b as int)) == s@.subrange(
            a as int,
            b as int,
        ));
    }
    sub_chars(s, a, b)
}

/// The request path of a URL: slashes trimmed; the empty path asks for
/// `index`.
pub open spec fn spec_request_path(uri: Seq<char>) -> Seq<char> {
    let t = spec_trim_end_slashes(spec_trim_start_slashes(uri));
    if t.len() == 0 {
        "index"@
    } else {
        t
    }
}

/// The content directory of a project root.
pub open spec fn spec_content_dir(root: Seq<char>) -> Seq<char> {
    spec_join_path(root, "content"@)
}

/// The source file a request asks for: `<root>/content/<path>.md`.
pub open spec fn spec_primary_candidate(uri: Seq<char>, root: Seq<char>) -> Seq<char> {
    spec_join_path(spec_content_dir(root), spec_request_path(uri) + ".md"@)
}

/// The fallback source file: `<root>/content/<path>/index.md`.
pub open spec fn spec_fallback_candidate(uri: Seq<char>, root: Seq<char>) -> Seq<char> {
    spec_join_path(spec_content_dir(root), spec_request_path(uri) + "/index.md"@)
}

/// Maps a request path to the source file to read: the direct `.md` file
/// where it exists, else the directory's `index.md`.  Whether the first
/// candidate exists is the caller's to say.
pub fn resolve_filename(uri_path: &str, root_dir: &str, primary_exists: bool) -> (r: String)
    ensures
        primary_exists ==> r@ == spec_primary_candidate(uri_path@, root_dir@),
        !primary_exists ==> r@ == spec_fallback_candidate(uri_path@, root_dir@),
{
    let cs = chars_vec(uri_path);
    let t = trim_slashes(&cs);
    let req: Vec<char> = if t.len() == 0 {
        chars_vec("index")
    } else {
        t
    };
    proof {
        assert(req@ == spec_request_path(uri_path@));
    }
    let cd = join_path(root_dir, "content");
    let mut file = req;
    let mut suffix = if primary_exists {
        chars_vec(".md")
    } else {
        chars_vec("/index.md")
    };
    file.append(&mut suffix);
    let file_s = string_from_chars(&file);
    join_path(cd.as_str(), file_s.as_str())
}

/// Decides a request: the primary candidate where it exists, else the
/// fallback where that exists, else a miss (never an error).
pub fn resolve_request(uri_path: &str, root_dir: &str, primary_exists: bool, fallback_exists: bool) -> (r:
    Option<String>)
    ensures
        primary_exists ==> (r matches Some(f) && f@ == spec_primary_candidate(
            uri_path@,
            root_dir@,
        )),
        !primary_exists && fallback_exists ==> (r matches Some(f) && f@
            == spec_fallback_candidate(uri_path@, root_dir@)),
        !primary_exists && !fallback_exists ==> r is None,
{
    if primary_exists || fallback_exists {
        Some(resolve_filename(uri_path, root_dir, primary_exists))
    } else {
        None
    }
}

/// The path relative to the content directory; the path itself where it
/// does not sit under it.
pub open spec fn spec_rel_to_content(p: Seq<char>, root: Seq<char>) -> Seq<char> {
    let cd = spec_content_dir(root);
    if p == cd {
        Seq::empty()
    } else if spec_starts_with(p, cd + seq!['/']) {
        p.skip(cd.len() as int + 1)
    } else {
        p
    }
}

/// `s` without a trailing `index` segment: a bare `index` becomes empty,
/// and a final `/index` falls away with its separator.  A name that merely
/// ends in the letters `index` is kept.
pub open spec fn spec_strip_index(s: Seq<char>) -> Seq<char> {
    if s == "index"@ {
        Seq::empty()
    } else if spec_ends_with(s, "/index"@) {
        s.take(s.len() - 6)
    } else {
        s
    }
}

/// Removes a trailing `index` segment, if there is one.
fn strip_index_segment(s: &Vec<char>) -> (r: Vec<char>)
    ensures
        r@ == spec_strip_index(s@),
{
    let index = chars_vec("index");
    if chars_eq(s, &index) {
        proof {
            reveal_strlit("index");
        }
        return Vec::new();
    }
    let slash_index = chars_vec("/index");
    proof {
        reveal_strlit("/index");
        assert(slash_index@.len() == 6);
    }
    if ends_with_at(s, &slash_index) {
        let r = sub_chars(s, 0, s.len() - 6);
        proof {
            assert(r@ =~= s@.take(s@.len() - 6));
        }
        r
    } else {
        sub_chars(s, 0, s.len())
    }
}

/// The canonical URL of a source path: relative to the content directory,
/// extension and trailing `index` segment stripped, rooted at `/`.
pub open spec fn spec_resolve_path(p: Seq<char>, root: Seq<char>) -> Seq<char> {
    let a = spec_rel_to_content(p, root);
    let b = spec_strip_suffix(a, ".md"@);
    let c = spec_strip_index(b);
    seq!['/'] + spec_strip_suffix(c, "/"@)
}

/// Maps a source file path to its canonical URL.
pub fn resolve_path(path: &str, root_dir: &str) -> (r: String)
    ensures
        r@ == spec_resolve_path(path@, root_dir@),
{
    let cs = chars_vec(path);
    let cd = join_path(root_dir, "content");
    let cdv = chars_vec(cd.as_str());
    let rel: Vec<char> = if chars_eq(&cs, &cdv) {
        Vec::new()
    } else {
        let mut pre = sub_chars(&cdv, 0, cdv.len());
        pre.push('/');
        proof {
            assert(pre@ =~= cdv@ + seq!['/']);
        }
        if starts_with_at(&cs, &pre) {
            sub_chars(&cs, pre.len(), cs.len())
        } else {
            sub_chars(&cs, 0, cs.len())
        }
    };
    proof {
        assert(rel@ =~= spec_rel_to_content(path@, root_dir@));
    }
    let a = strip_suffix_chars(&rel, &chars_vec(".md"));
    let b = strip_index_segment(&a);
    let c = strip_suffix_chars(&b, &chars_vec("/"));
    let mut out: Vec<char> = Vec::new();
    out.push('/');
    let mut tail = c;
    out.append(&mut tail);
    proof {
        assert(out@ =~= spec_resolve_path(path@, root_dir@));
    }
    string_from_chars(&out)
}

/// Position of the last `/` of `p`, if any.
pub open spec fn spec_rfind_slash(p: Seq<char>) -> Option<int>
    decreases p.len(),
{
    if p.len() == 0 {
        None
    } else if p.last() == '/' {
        Some(p.len() - 1)
    } else {
        spec_rfind_slash(p.drop_last())
    }
}

/// The file name of a path: what follows its last `/`.
pub open spec fn spec_basename(p: Seq<char>) -> Seq<char> {
    match spec_rfind_slash(p) {
        Some(i) => p.skip(i + 1),
        None => p,
    }
}

/// The directory of a path: what precedes its last `/`; empty for a bare
/// file name.
pub open spec fn spec_parent_of(p: Seq<char>) -> Seq<char> {
    match spec_rfind_slash(p) {
        Some(i) => p.take(i),
        None => Seq::empty(),
    }
}

/// Finds the last `/` of `s`.
#[verifier::loop_isolation(false)]
fn rfind_slash(s: &Vec<char>) -> (r: Option<usize>)
    ensures
        match r {
            Some(i) => i < s@.len() && Some(i as int) == spec_rfind_slash(s@),
            None => spec_rfind_slash(s@) is None,
        },
{
    let mut b = s.len();
    proof {
        assert(s@.take(b as int) =~= s@);
    }
    while b > 0
        invariant
            b <= s@.len(),
            spec_rfind_slash(s@) == spec_rfind_slash(s@.take(b as int)),
        decreases b,
    {
        proof {
            assert(s@.take(b as int).last() == s@[b - 1]);
            assert(s@.take(b as int).drop_last() =~= s@.take(b - 1));
        }
        if s[b - 1] == '/' {
            return Some(b - 1);
        }
        b -= 1;
    }
    proof {
        assert(s@.take(0) =~= Seq::<char>::empty());
    }
    None
}

/// A path whose file name carries the `md` extension.
pub open spec fn spec_is_md_path(p: Seq<char>) -> bool {
    spec_ends_with(spec_basename(p), ".md"@) && spec_basename(p).len() > 3
}

/// Does the path name a Markdown file?
pub fn is_markdown_path(path: &str) -> (r: bool)
    ensures
        r == spec_is_md_path(path@),
{
    let cs = chars_vec(path);
    let n = cs.len();
    let start: usize = match rfind_slash(&cs) {
        Some(i) => i + 1,
        None => 0,
    };
    let base = sub_chars(&cs, start, n);
    proof {
        assert(base@ =~= spec_basename(path@));
    }
    base.len() > 3 && ends_with_at(&base, &chars_vec(".md"))
}

/// Does the path's directory have a name?  (Reading a directory-scoped
/// config needs one.)
pub fn has_named_parent(path: &str) -> (r: bool)
    ensures
        r == (spec_basename(spec_parent_of(path@)).len() > 0),
{
    let cs = chars_vec(path);
    let parent: Vec<char> = match rfind_slash(&cs) {
        Some(i) => sub_chars(&cs, 0, i),
        None => Vec::new(),
    };
    proof {
        assert(parent@ =~= spec_parent_of(path@));
    }
    let pn = parent.len();
    let start: usize = match rfind_slash(&parent) {
        Some(i) => i + 1,
        None => 0,
    };
    pn - start > 0
}

/// The parent directory of a path, and its name.
pub fn parent_dir_of(path: &str) -> (r: (String, String))
    ensures
        r.0@ == spec_parent_of(path@),
        r.1@ == spec_basename(spec_parent_of(path@)),
{
    let cs = chars_vec(path);
    let parent: Vec<char> = match rfind_slash(&cs) {
        Some(i) => sub_chars(&cs, 0, i),
        None => Vec::new(),
    };
    proof {
        assert(parent@ =~= spec_parent_of(path@));
    }
    let pn = parent.len();
    let start: usize = match rfind_slash(&parent) {
        Some(i) => i + 1,
        None => 0,
    };
    let base = sub_chars(&parent, start, pn);
    proof {
        assert(base@ =~= spec_basename(parent@));
    }
    (string_from_chars(&parent), string_from_chars(&base))
}

/// The canonical URL a navigation entry links to: the source path relative
/// to the content directory, without its `.md` extension and without a
/// trailing `index` segment, rooted at `/`.
pub open spec fn spec_filename_to_url(p: Seq<char>, root: Seq<char>) -> Seq<char> {
    seq!['/'] + spec_strip_index(spec_strip_suffix(spec_rel_to_content(p, root), ".md"@))
}

/// Maps a library key (a Markdown source path) to the URL used in
/// navigation.
pub fn filename_to_url(filename: &str, root_dir: &str) -> (r: String)
    requires
        spec_is_md_path(filename@),
    ensures
        r@ == spec_filename_to_url(filename@, root_dir@),
{
    let cs = chars_vec(filename);
    let cd = join_path(root_dir, "content");
    let cdv = chars_vec(cd.as_str());
    let rel: Vec<char> = if chars_eq(&cs, &cdv) {
        Vec::new()
    } else {
        let mut pre = sub_chars(&cdv, 0, cdv.len());
        pre.push('/');
        proof {
            assert(pre@ =~= cdv@ + seq!['/']);
        }
        if starts_with_at(&cs, &pre) {
            sub_chars(&cs, pre.len(), cs.len())
        } else {
            sub_chars(&cs, 0, cs.len())
        }
    };
    proof {
        assert(rel@ =~= spec_rel_to_content(filename@, root_dir@));
    }
    let a = strip_suffix_chars(&rel, &chars_vec(".md"));
    let b = strip_index_segment(&a);
    let mut out: Vec<char> = Vec::new();
    out.push('/');
    let mut tail = b;
    out.append(&mut tail);
    proof {
        assert(out@ =~= spec_filename_to_url(filename@, root_dir@));
    }
    string_from_chars(&out)
}

/// Where a request for `.../index` (with an optional trailing slash) is
/// redirected to: the enclosing directory's clean URL.  `None` where the
/// request is not for an `index` page.
pub open spec fn spec_redirect_target(path: Seq<char>) -> Option<Seq<char>> {
    let p = spec_strip_suffix(path, "/"@);
    if spec_ends_with(p, "/index"@) {
        let stripped = p.take(p.len() - 6);
        if stripped.len() == 0 {
            Some("/"@)
        } else {
            Some(spec_trim_end_slashes(stripped) + seq!['/'])
        }
    } else {
        None
    }
}

/// Decides whether a request path is redirected away from its `index`
/// form, and where to.
#[verifier::loop_isolation(false)]
pub fn redirect_target(path: &str) -> (r: Option<String>)
    ensures
        match r {
            Some(t) => Some(t@) == spec_redirect_target(path@),
            None => spec_redirect_target(path@) is None,
        },
{
    let cs = chars_vec(path);
    let p = strip_suffix_chars(&cs, &chars_vec("/"));
    let suffix = chars_vec("/index");
    proof {
        reveal_strlit("/index");
        assert(suffix@.len() == 6);
    }
    if !ends_with_at(&p, &suffix) {
        return None;
    }
    let stripped = sub_chars(&p, 0, p.len() - 6);
    proof {
        assert(stripped@ =~= p@.take(p@.len() - 6));
    }
    if stripped.len() == 0 {
        return Some("/".to_owned());
    }
    let n = stripped.len();
    let mut b: usize = n;
    proof {
        assert(stripped@.take(n as int) =~= stripped@);
    }
    while b > 0 && stripped[b - 1] == '/'
        invariant
            b <= n,
            spec_trim_end_slashes(stripped@) == spec_trim_end_slashes(stripped@.take(b as int)),
        decreases b,
    {
        proof {
            assert(stripped@.take(b as int).last() == stripped@[b - 1]);
            assert(stripped@.take(b as int).drop_last() =~= stripped@.take(b - 1));
        }
        b -= 1;
    }
    proof {
        if b == 0 {
            assert(stripped@.take(0) =~= Seq::<char>::empty());
        }
        assert(spec_trim_end_slashes(stripped@.take(b as int)) == stripped@.take(b as int));
    }
    let mut out = sub_chars(&stripped, 0, b);
    out.push('/');
    proof {
        assert(out@ =~= spec_trim_end_slashes(stripped@) + seq!['/']);
    }
    Some(string_from_chars(&out))
}

/// Path-resolution round trip: a clean request path (no surrounding
/// slashes, whose final segment is not `index`) leads to the source file
/// `<root>/content/<path>.md`, and the canonical URL of that source file
/// is `/<path>` again.
pub proof fn lemma_resolve_roundtrip(u: Seq<char>, root: Seq<char>)
    requires
        u.len() > 0,
        u.first() != '/',
        u.last() != '/',
        u != "index"@,
        !spec_ends_with(u, "/index"@),
    ensures
        spec_resolve_path(spec_primary_candidate(u, root), root) == seq!['/'] + u,
{
    reveal_strlit(".md");
    reveal_strlit("index");
    reveal_strlit("/");
    reveal_strlit("content");
    let cd = spec_content_dir(root);
    // the content directory always ends with `content`, never with `/`
    assert(cd.len() > 0 && cd.last() == 't') by {
        if root.len() == 0 {
            assert(cd == "content"@);
            assert("content"@.len() == 7 && "content"@[6] == 't');
        } else if root.last() == '/' {
            assert(cd == root + "content"@);
            assert((root + "content"@)[root.len() as int + 6] == 't');
        } else {
            assert(cd == root + seq!['/'] + "content"@);
            assert((root + seq!['/'] + "content"@)[root.len() as int + 7] == 't');
        }
    }
    assert(spec_request_path(u) == u);
    let file = u + ".md"@;
    let p = spec_primary_candidate(u, root);
    assert(p == cd + seq!['/'] + file);
    // the primary candidate sits under the content directory
    assert(p.len() == cd.len() + 1 + u.len() + 3);
    assert(p != cd);
    assert(spec_starts_with(p, cd + seq!['/'])) by {
        assert(p.subrange(0, cd.len() as int + 1) =~= cd + seq!['/']);
    }
    let rel = spec_rel_to_content(p, root);
    assert(rel =~= file);
    // strip `.md`
    assert(spec_ends_with(file, ".md"@)) by {
        assert(file.subrange(file.len() - 3, file.len() as int) =~= ".md"@);
    }
    let b = spec_strip_suffix(file, ".md"@);
    assert(b =~= u);
    // `index` is not a suffix, nor is `/`
    assert(!spec_ends_with(u, "/"@)) by {
        if spec_ends_with(u, "/"@) {
            assert(u.subrange(u.len() - 1, u.len() as int)[0] == u.last());
        }
    }
    assert(spec_resolve_path(p, root) == seq!['/'] + u);
}

/// The static-export output file of a content-relative source path: the
/// `.md` extension swapped for `.html`.
pub fn output_path(rel: &str) -> (r: String)
    requires
        spec_is_md_path(rel@),
    ensures
        r@ == spec_strip_suffix(rel@, ".md"@) + ".html"@,
{
    let cs = chars_vec(rel);
    let mut stem = strip_suffix_chars(&cs, &chars_vec(".md"));
    let mut ext = chars_vec(".html");
    stem.append(&mut ext);
    string_from_chars(&stem)
}

} // verus!
