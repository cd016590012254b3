//! Content resolution: which loader a `memorize` input goes to, where a
//! GitHub reference points, and how loaded documents become one text.

use vstd::prelude::*;
use crate::error::{ErrorKind, MemoryError};
use crate::text::{
    chars_of, contains_exec, contains_seq, occurs_at_exec, starts_with, string_from_chars,
    tail_from, trim_prefix_all, trim_prefix_all_exec,
};

use vstd::string::StringExecFns;

verus! {

/// The pieces of `s` between `/` characters (always at least one piece).
pub open spec fn split_slash(s: Seq<char>) -> Seq<Seq<char>>
    decreases s.len(),
{
    if s.len() == 0 {
        seq![Seq::<char>::empty()]
    } else {
        let p = split_slash(s.drop_last());
        if s.last() == '/' {
            p.push(Seq::<char>::empty())
        } else {
            p.update(p.len() - 1, p.last().push(s.last()))
        }
    }
}

/// `parts` joined with `/` between neighbours.
pub open spec fn join_slash(parts: Seq<Seq<char>>) -> Seq<char>
    decreases parts.len(),
{
    if parts.len() == 0 {
        Seq::<char>::empty()
    } else if parts.len() == 1 {
        parts[0]
    } else {
        join_slash(parts.drop_last()) + seq!['/'] + parts.last()
    }
}

/// The views of a vector of character vectors.
pub open spec fn piece_views(v: Seq<Vec<char>>) -> Seq<Seq<char>> {
    v.map_values(|x: Vec<char>| x@)
}

proof fn lemma_split_nonempty(s: Seq<char>)
    ensures
        split_slash(s).len() >= 1,
    decreases s.len(),
{
    if s.len() > 0 {
        lemma_split_nonempty(s.drop_last());
    }
}

/// Splits `s` at each `/`.
pub fn split_slash_exec(s: &Vec<char>) -> (r: Vec<Vec<char>>)
    ensures
        piece_views(r@) == split_slash(s@),
{
    let mut done: Vec<Vec<char>> = Vec::new();
    let mut cur: Vec<char> = Vec::new();
    let mut i: usize = 0;
    proof {
        assert(s@.subrange(0, 0) =~= Seq::<char>::empty());
        assert(piece_views(done@).push(cur@) =~= split_slash(Seq::<char>::empty()));
    }
    while i < s.len()
        invariant
            i <= s.len(),
            piece_views(done@).push(cur@) == split_slash(s@.subrange(0, i as int)),
        decreases s.len() - i,
    {
        let c = s[i];
        proof {
            assert(s@.subrange(0, i + 1).drop_last() =~= s@.subrange(0, i as int));
            assert(s@.subrange(0, i + 1).last() == c);
            lemma_split_nonempty(s@.subrange(0, i as int));
        }
        if c == '/' {
            let ghost before = piece_views(done@).push(cur@);
            let piece = tail_from(&cur, 0);
            assert(piece@ =~= cur@);
            done.push(piece);
            cur = Vec::new();
            proof {
                assert(piece_views(done@) =~= before);
                assert(piece_views(done@).push(cur@) =~= before.push(Seq::<char>::empty()));
            }
        } else {
            let ghost before = piece_views(done@).push(cur@);
            cur.push(c);
            proof {
                assert(piece_views(done@).push(cur@) =~= before.update(before.len() - 1, before.last().push(c)));
            }
        }
        i = i + 1;
    }
    proof {
        assert(s@.subrange(0, s.len() as int) =~= s@);
    }
    let ghost before = piece_views(done@).push(cur@);
    done.push(cur);
    proof {
        assert(piece_views(done@) =~= before);
    }
    done
}

/// Joins `parts[from..]` with `/`.
pub fn join_slash_from(parts: &Vec<Vec<char>>, from: usize) -> (r: Vec<char>)
    requires
        from < parts.len(),
    ensures
        r@ == join_slash(piece_views(parts@).subrange(from as int, parts@.len() as int)),
{
    let ghost pv = piece_views(parts@);
    let mut r = tail_from(&parts[from], 0);
    let mut i: usize = from + 1;
    proof {
        assert(pv.subrange(from as int, from + 1) =~= seq![parts@[from as int]@]);
    }
    while i < parts.len()
        invariant
            pv == piece_views(parts@),
            from < i <= parts.len(),
            r@ == join_slash(pv.subrange(from as int, i as int)),
        decreases parts.len() - i,
    {
        r.push('/');
        let mut piece = tail_from(&parts[i], 0);
        r.append(&mut piece);
        proof {
            let sub = pv.subrange(from as int, i + 1);
            assert(sub.drop_last() =~= pv.subrange(from as int, i as int));
            assert(sub.last() == parts@[i as int]@);
        }
        i = i + 1;
    }
    r
}

/// Where a GitHub reference points: `owner/repo` and a path in it.
/// The path after `blob/<ref>/` is taken when that form is used; an empty
/// path means `README.md`. `None` when there is no `owner/repo`.
pub open spec fn github_target(input: Seq<char>) -> Option<(Seq<char>, Seq<char>)> {
    let parts = split_slash(trim_prefix_all(input, "github.com/"@));
    if parts.len() < 2 {
        None
    } else {
        let repo = parts[0] + seq!['/'] + parts[1];
        let path = if parts.len() > 4 && parts[2] == "blob"@ {
            join_slash(parts.subrange(4, parts.len() as int))
        } else if parts.len() > 2 {
            join_slash(parts.subrange(2, parts.len() as int))
        } else {
            Seq::<char>::empty()
        };
        Some((repo, if path.len() == 0 { "README.md"@ } else { path }))
    }
}

/// Parses a GitHub reference into `owner/repo` and a path.
pub fn parse_github_reference(input: &str) -> (r: Option<(String, String)>)
    ensures
        r is Some <==> github_target(input@) is Some,
        r matches Some((repo, path)) ==> (repo@, path@) == github_target(input@)->0,
{
    let cs = chars_of(input);
    let prefix = chars_of("github.com/");
    let trimmed = trim_prefix_all_exec(&cs, &prefix);
    let parts = split_slash_exec(&trimmed);
    let ghost pv = piece_views(parts@);
    if parts.len() < 2 {
        return None;
    }
    let mut repo = tail_from(&parts[0], 0);
    repo.push('/');
    let mut second = tail_from(&parts[1], 0);
    repo.append(&mut second);
    let blob = chars_of("blob");
    proof {
        reveal_strlit("blob");
    }
    let n = parts.len();
    let path: Vec<char> = if n > 4 && parts[2].len() == blob.len() && occurs_at_exec(&parts[2], &blob, 0) {
        proof {
            assert(parts@[2]@.subrange(0, 4) =~= parts@[2]@);
            assert(pv[2] == parts@[2]@);
        }
        join_slash_from(&parts, 4)
    } else if n > 2 {
        proof {
            if n > 4 && pv[2] == "blob"@ {
                assert(pv[2] == parts@[2]@);
                assert(parts@[2]@.subrange(0, 4) =~= parts@[2]@);
            }
        }
        join_slash_from(&parts, 2)
    } else {
        Vec::new()
    };
    let path_text = if path.len() == 0 {
        String::from_str("README.md")
    } else {
        string_from_chars(&path)
    };
    proof {
        assert(pv[0] == parts@[0]@ && pv[1] == parts@[1]@);
    }
    Some((string_from_chars(&repo), path_text))
}

/// What the filesystem says of an input read as a path.
#[derive(Debug, Clone, Copy, PartialEq, Eq, Structural)]
pub enum PathKind {
    /// No such path.
    Missing,
    /// An existing directory.
    Directory,
    /// An existing regular file.
    File,
}

/// The loader that a content input goes to.
#[derive(Debug, Clone, Copy, PartialEq, Eq, Structural)]
pub enum SourceKind {
    Url,
    GitHub,
    Directory,
    File,
    Glob,
    Literal,
}

/// A classified content input.
#[derive(Debug)]
pub enum ContentSource {
    /// Fetch the input as an HTTP body.
    Url,
    /// Fetch `path` from the GitHub repository `repo` (`owner/name`).
    GitHub { repo: String, path: String },
    /// Concatenate every file under the directory.
    Directory,
    /// Read the file.
    File,
    /// Concatenate every file the pattern matches.
    Glob,
    /// Store the input itself.
    Literal,
}

/// The kind of a classified source.
pub open spec fn source_kind(s: ContentSource) -> SourceKind {
    match s {
        ContentSource::Url => SourceKind::Url,
        ContentSource::GitHub { .. } => SourceKind::GitHub,
        ContentSource::Directory => SourceKind::Directory,
        ContentSource::File => SourceKind::File,
        ContentSource::Glob => SourceKind::Glob,
        ContentSource::Literal => SourceKind::Literal,
    }
}

/// The input is an HTTP or HTTPS URL.
pub open spec fn is_url(input: Seq<char>) -> bool {
    starts_with(input, "http://"@) || starts_with(input, "https://"@)
}

/// The input names a GitHub location.
pub open spec fn is_github(input: Seq<char>) -> bool {
    contains_seq(input, "github.com/"@)
}

/// The input holds a wildcard.
pub open spec fn is_glob(input: Seq<char>) -> bool {
    exists|i: int| 0 <= i < input.len() && ((#[trigger] input[i]) == '*' || input[i] == '?')
}

/// The first matching rule: URL, GitHub, existing directory, existing file,
/// wildcard pattern, and otherwise literal text.
pub open spec fn resolution_rule(input: Seq<char>, kind: PathKind) -> SourceKind {
    if is_url(input) {
        SourceKind::Url
    } else if is_github(input) {
        SourceKind::GitHub
    } else if kind == PathKind::Directory {
        SourceKind::Directory
    } else if kind == PathKind::File {
        SourceKind::File
    } else if is_glob(input) {
        SourceKind::Glob
    } else {
        SourceKind::Literal
    }
}

/// Classifies a content input, given what the filesystem says of it as a
/// path. A GitHub reference without `owner/repo` is `InvalidInput`.
pub fn classify_content(input: &str, path_kind: PathKind) -> (r: Result<ContentSource, MemoryError>)
    ensures
        r is Err <==> (resolution_rule(input@, path_kind) == SourceKind::GitHub && github_target(input@) is None),
        r matches Err(e) ==> e.kind == ErrorKind::InvalidInput,
        r matches Ok(src) ==> source_kind(src) == resolution_rule(input@, path_kind),
        r matches Ok(ContentSource::GitHub { repo, path }) ==> (repo@, path@) == github_target(input@)->0,
{
    let cs = chars_of(input);
    let http = chars_of("http://");
    let https = chars_of("https://");
    if occurs_at_exec(&cs, &http, 0) || occurs_at_exec(&cs, &https, 0) {
        return Ok(ContentSource::Url);
    }
    let gh = chars_of("github.com/");
    if contains_exec(&cs, &gh) {
        return match parse_github_reference(input) {
            Some((repo, path)) => Ok(ContentSource::GitHub { repo, path }),
            None => Err(MemoryError::new(ErrorKind::InvalidInput, "invalid GitHub reference".to_string())),
        };
    }
    match path_kind {
        PathKind::Directory => return Ok(ContentSource::Directory),
        PathKind::File => return Ok(ContentSource::File),
        PathKind::Missing => {},
    }
    let mut i: usize = 0;
    while i < cs.len()
        invariant
            cs@ == input@,
            i <= cs.len(),
            !is_url(input@),
            !is_github(input@),
            path_kind == PathKind::Missing,
            forall|j: int| 0 <= j < i ==> !((#[trigger] cs@[j]) == '*' || cs@[j] == '?'),
        decreases cs.len() - i,
    {
        if cs[i] == '*' || cs[i] == '?' {
            assert(input@[i as int] == '*' || input@[i as int] == '?');
            return Ok(ContentSource::Glob);
        }
        i = i + 1;
    }
    Ok(ContentSource::Literal)
}

/// An input that is neither a URL nor a GitHub reference and names no
/// existing path is never refused: it is literal text, or a wildcard pattern
/// (which `glob_text` turns back into the input itself when nothing matches).
pub proof fn lemma_missing_path_is_literal(input: Seq<char>)
    requires
        !is_url(input),
        !is_github(input),
    ensures
        resolution_rule(input, PathKind::Missing) == SourceKind::Literal
            || resolution_rule(input, PathKind::Missing) == SourceKind::Glob,
        resolution_rule(input, PathKind::Missing) != SourceKind::GitHub,
        !is_glob(input) ==> resolution_rule(input, PathKind::Missing) == SourceKind::Literal,
{
}

/// One loaded file: where it came from and what it holds.
#[derive(Debug)]
pub struct LoadedDocument {
    pub path: String,
    pub body: String,
}

/// The block of one file in a concatenation: a header line, then the body.
pub open spec fn document_block(path: Seq<char>, body: Seq<char>) -> Seq<char> {
    "=== "@ + path + " ===\n"@ + body
}

/// The blocks of `docs`, separated by blank lines.
pub open spec fn joined_blocks(docs: Seq<LoadedDocument>) -> Seq<char>
    decreases docs.len(),
{
    if docs.len() == 0 {
        Seq::<char>::empty()
    } else if docs.len() == 1 {
        document_block(docs[0].path@, docs[0].body@)
    } else {
        joined_blocks(docs.drop_last()) + "\n\n"@ + document_block(docs.last().path@, docs.last().body@)
    }
}

/// Concatenates loaded files, each under its `=== path ===` header.
pub fn join_documents(docs: &Vec<LoadedDocument>) -> (r: String)
    ensures
        r@ == joined_blocks(docs@),
{
    let mut r = String::new();
    let mut i: usize = 0;
    while i < docs.len()
        invariant
            i <= docs.len(),
            r@ == joined_blocks(docs@.subrange(0, i as int)),
        decreases docs.len() - i,
    {
        proof {
            assert(docs@.subrange(0, i + 1).drop_last() =~= docs@.subrange(0, i as int));
            assert(docs@.subrange(0, i + 1).last() == docs@[i as int]);
        }
        if i > 0 {
            r.append("\n\n");
        }
        r.append("=== ");
        r.append(docs[i].path.as_str());
        r.append(" ===\n");
        r.append(docs[i].body.as_str());
        proof {
            if i == 0 {
                assert(docs@.subrange(0, 0).len() == 0);
                assert(r@ =~= document_block(docs@[0].path@, docs@[0].body@));
            } else {
                assert(r@ =~= joined_blocks(docs@.subrange(0, i as int)) + "\n\n"@ + document_block(docs@[i as int].path@, docs@[i as int].body@));
            }
        }
        i = i + 1;
    }
    proof {
        assert(docs@.subrange(0, docs.len() as int) =~= docs@);
    }
    r
}

/// The text of a directory: its files joined; a directory with no files is
/// `NotFound`, with a message saying that no files were found.
pub fn directory_text(docs: &Vec<LoadedDocument>) -> (r: Result<String, MemoryError>)
    ensures
        r is Err <==> docs@.len() == 0,
        r matches Err(e) ==> e.kind == ErrorKind::NotFound && e.message@ == "no files found"@,
        r matches Ok(t) ==> t@ == joined_blocks(docs@),
{
    if docs.len() == 0 {
        Err(MemoryError::new(ErrorKind::NotFound, String::from_str("no files found")))
    } else {
        Ok(join_documents(docs))
    }
}

/// The text of a wildcard pattern: the matched files joined, or, when it
/// matches nothing, the input itself as literal text.
pub fn glob_text(input: &str, docs: &Vec<LoadedDocument>) -> (r: String)
    ensures
        docs@.len() == 0 ==> r@ == input@,
        docs@.len() > 0 ==> r@ == joined_blocks(docs@),
{
    if docs.len() == 0 {
        String::from_str(input)
    } else {
        join_documents(docs)
    }
}

/// The text of a single file: the body of its first document; no document
/// is `Internal`.
pub fn file_text(docs: &Vec<LoadedDocument>) -> (r: Result<String, MemoryError>)
    ensures
        r is Err <==> docs@.len() == 0,
        r matches Err(e) ==> e.kind == ErrorKind::Internal,
        r matches Ok(t) ==> t@ == docs@[0].body@,
{
    if docs.len() == 0 {
        Err(MemoryError::new(ErrorKind::Internal, "failed to load file".to_string()))
    } else {
        Ok(docs[0].body.clone())
    }
}

/// `s` without trailing `/` characters.
pub open spec fn trim_trailing_slashes(s: Seq<char>) -> Seq<char>
    decreases s.len(),
{
    if s.len() > 0 && s.last() == '/' {
        trim_trailing_slashes(s.drop_last())
    } else {
        s
    }
}

/// The pattern that walks every file under directory `dir`.
pub fn directory_pattern(dir: &str) -> (r: String)
    ensures
        r@ == trim_trailing_slashes(dir@) + "/**/*"@,
{
    let cs = chars_of(dir);
    let mut n: usize = cs.len();
    assert(cs@.subrange(0, n as int) =~= dir@);
    while n > 0 && cs[n - 1] == '/'
        invariant
            n <= cs.len(),
            trim_trailing_slashes(cs@.subrange(0, n as int)) == trim_trailing_slashes(dir@),
        decreases n,
    {
        assert(cs@.subrange(0, n as int).drop_last() =~= cs@.subrange(0, n - 1));
        n = n - 1;
    }
    proof {
        assert(cs@.subrange(0, cs.len() as int) =~= cs@);
    }
    let mut head: Vec<char> = Vec::new();
    let mut i: usize = 0;
    while i < n
        invariant
            n <= cs.len(),
            i <= n,
            head@ == cs@.subrange(0, i as int),
        decreases n - i,
    {
        head.push(cs[i]);
        assert(cs@.subrange(0, i + 1) =~= cs@.subrange(0, i as int).push(cs@[i as int]));
        i = i + 1;
    }
    let mut r = string_from_chars(&head);
    r.append("/**/*");
    r
}

} // verus!
