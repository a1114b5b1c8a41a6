//! Where a mod comes from: a local directory or a GitHub repository, and the
//! mod list file that names several of them.
use vstd::prelude::*;
use crate::text::{
    copy_str,
    is_white_space, trim_start_spec, trim_end_spec,
    chars_of, concat, contains_char, find_char, first_index_of, has_prefix, last_index_of,
    lemma_first_index_none, lemma_first_index_props, lemma_first_index_unique, lemma_last_index_none,
    lemma_last_index_props, lemma_last_index_unique, lines, lines_spec, rfind_char, starts_with_chars,
    str_equal, string_from_chars, trim, trim_bounds, trim_spec, views,
};

verus! {

/// A source for a mod.
#[derive(Debug)]
pub enum ModSource {
    /// A local file system path.
    Local { path: String },
    /// A GitHub repository, optionally a subdirectory of it and a branch.
    GitHub {
        /// Repository as "owner/repo".
        repo: String,
        /// Subdirectory within the repository.
        subdir: Option<String>,
        /// Branch name ("main" when absent).
        branch: Option<String>,
    },
}

/// The mathematical value of a [`ModSource`].
pub enum SourceView {
    Local { path: Seq<char> },
    GitHub { repo: Seq<char>, subdir: Option<Seq<char>>, branch: Option<Seq<char>> },
}

/// The view of an optional string.
pub open spec fn opt_view(o: Option<String>) -> Option<Seq<char>> {
    match o {
        Some(s) => Some(s@),
        None => None,
    }
}

impl View for ModSource {
    type V = SourceView;

    open spec fn view(&self) -> SourceView {
        match self {
            ModSource::Local { path } => SourceView::Local { path: path@ },
            ModSource::GitHub { repo, subdir, branch } => SourceView::GitHub {
                repo: repo@,
                subdir: opt_view(*subdir),
                branch: opt_view(*branch),
            },
        }
    }
}

/// Why a mod source could not be parsed.
#[derive(Debug)]
pub enum ModSourceError {
    /// The repository part has no '/'; it holds the repository part found.
    InvalidRepo { repo: String },
}

impl ModSourceError {
    /// The repository part that was rejected.
    pub open spec fn repo_view(&self) -> Seq<char> {
        match self {
            ModSourceError::InvalidRepo { repo } => repo@,
        }
    }

    /// The error message: "GitHub repo must be in format 'owner/repo', got: " and the repository part.
    pub fn message(&self) -> (m: String)
        ensures
            m@ == "GitHub repo must be in format 'owner/repo', got: "@ + self.repo_view(),
    {
        match self {
            ModSourceError::InvalidRepo { repo } => concat(
                "GitHub repo must be in format 'owner/repo', got: ",
                repo.as_str(),
            ),
        }
    }
}

/// The text after "github:": `owner/repo[:subdir][@branch]`. The branch follows the
/// last '@', the subdirectory the first ':' before it; the repository must hold a '/'.
/// An error carries the repository part.
pub open spec fn parse_github_spec(s: Seq<char>) -> Result<SourceView, Seq<char>> {
    let (repo_part, branch) = match last_index_of(s, '@') {
        Some(p) => (s.subrange(0, p), Some(s.subrange(p + 1, s.len() as int))),
        None => (s, None::<Seq<char>>),
    };
    let (repo, subdir) = match first_index_of(repo_part, ':') {
        Some(p) => (repo_part.subrange(0, p), Some(repo_part.subrange(p + 1, repo_part.len() as int))),
        None => (repo_part, None::<Seq<char>>),
    };
    if !repo.contains('/') {
        Err(repo)
    } else {
        Ok(SourceView::GitHub { repo, subdir, branch })
    }
}

/// A source line: trimmed; "github:..." is a GitHub source, anything else a local path.
pub open spec fn parse_source_spec(s: Seq<char>) -> Result<SourceView, Seq<char>> {
    let t = trim_spec(s);
    if has_prefix(t, "github:"@) {
        parse_github_spec(t.subrange("github:"@.len() as int, t.len() as int))
    } else {
        Ok(SourceView::Local { path: t })
    }
}

/// `v[from..to]` as a new vector.
pub fn sub_chars(v: &Vec<char>, from: usize, to: usize) -> (r: Vec<char>)
    requires
        from <= to <= v.len(),
    ensures
        r@ == v@.subrange(from as int, to as int),
{
    let mut r: Vec<char> = Vec::new();
    let mut i = from;
    while i < to
        invariant
            from <= i <= to <= v.len(),
            r@ == v@.subrange(from as int, i as int),
        decreases to - i,
    {
        r.push(v[i]);
        i = i + 1;
        assert(r@ =~= v@.subrange(from as int, i as int));
    }
    r
}

fn parse_github_chars(s: &Vec<char>) -> (r: Result<ModSource, ModSourceError>)
    ensures
        r matches Ok(src) ==> parse_github_spec(s@) == Ok::<SourceView, Seq<char>>(src@),
        r matches Err(e) ==> parse_github_spec(s@) == Err::<SourceView, Seq<char>>(e.repo_view()),
{
    proof {
        lemma_last_index_props(s@, '@');
    }
    let (repo_part, branch) = match rfind_char(s, '@') {
        Some(p) => (sub_chars(s, 0, p), Some(string_from_chars(s, p + 1, s.len()))),
        None => (sub_chars(s, 0, s.len()), None),
    };
    assert(s@.subrange(0, s@.len() as int) =~= s@);
    proof {
        lemma_first_index_props(repo_part@, ':');
    }
    let (repo, subdir) = match find_char(&repo_part, ':') {
        Some(p) => (
            sub_chars(&repo_part, 0, p),
            Some(string_from_chars(&repo_part, p + 1, repo_part.len())),
        ),
        None => (sub_chars(&repo_part, 0, repo_part.len()), None),
    };
    assert(repo_part@.subrange(0, repo_part@.len() as int) =~= repo_part@);
    let repo_str = string_from_chars(&repo, 0, repo.len());
    assert(repo@.subrange(0, repo@.len() as int) =~= repo@);
    if !contains_char(&repo, '/') {
        Err(ModSourceError::InvalidRepo { repo: repo_str })
    } else {
        let r = ModSource::GitHub { repo: repo_str, subdir, branch };
        Ok(r)
    }
}

impl ModSource {
    /// Parses a mod source from a line of text.
    ///
    /// Formats: a local path such as `path/to/mod`; or `github:owner/repo`,
    /// `github:owner/repo@branch`, `github:owner/repo:subdir`,
    /// `github:owner/repo:subdir@branch`.
    pub fn parse(s: &str) -> (r: Result<ModSource, ModSourceError>)
        ensures
            r matches Ok(src) ==> parse_source_spec(s@) == Ok::<SourceView, Seq<char>>(src@),
            r matches Err(e) ==> parse_source_spec(s@) == Err::<SourceView, Seq<char>>(e.repo_view()),
    {
        let v = chars_of(s);
        let (i, j) = trim_bounds(&v);
        let t = sub_chars(&v, i, j);
        let prefix = chars_of("github:");
        if starts_with_chars(&t, &prefix) {
            let rest = sub_chars(&t, prefix.len(), t.len());
            Self::parse_github_chars_of(&rest)
        } else {
            assert(t@.subrange(0, t@.len() as int) =~= t@);
            Ok(ModSource::Local { path: string_from_chars(&t, 0, t.len()) })
        }
    }

    fn parse_github_chars_of(s: &Vec<char>) -> (r: Result<ModSource, ModSourceError>)
        ensures
            r matches Ok(src) ==> parse_github_spec(s@) == Ok::<SourceView, Seq<char>>(src@),
            r matches Err(e) ==> parse_github_spec(s@) == Err::<SourceView, Seq<char>>(e.repo_view()),
    {
        parse_github_chars(s)
    }

    /// Parses the text that follows "github:": `owner/repo[:subdir][@branch]`.
    pub fn parse_github(s: &str) -> (r: Result<ModSource, ModSourceError>)
        ensures
            r matches Ok(src) ==> parse_github_spec(s@) == Ok::<SourceView, Seq<char>>(src@),
            r matches Err(e) ==> parse_github_spec(s@) == Err::<SourceView, Seq<char>>(e.repo_view()),
    {
        let v = chars_of(s);
        parse_github_chars(&v)
    }
}


/// The views of a sequence of sources.
pub open spec fn sources_view(v: Seq<ModSource>) -> Seq<SourceView> {
    Seq::new(v.len(), |i: int| v[i]@)
}

/// A list of mod sources to install.
#[derive(Debug)]
pub struct ModList {
    pub sources: Vec<ModSource>,
}

/// A line of a mod list that did not parse: its 1-based number, the trimmed
/// line and the error.
#[derive(Debug)]
pub struct SkippedLine {
    pub line_number: usize,
    pub line: String,
    pub error: ModSourceError,
}

/// What one line of a mod list gives: nothing for an empty or '#' line,
/// otherwise the parse of the trimmed line.
pub open spec fn line_source(line: Seq<char>) -> Option<Result<SourceView, Seq<char>>> {
    let t = trim_spec(line);
    if t.len() == 0 || t[0] == '#' {
        None
    } else {
        Some(parse_source_spec(t))
    }
}

/// The sources that the lines give, in order.
pub open spec fn list_sources(ls: Seq<Seq<char>>) -> Seq<SourceView>
    decreases ls.len(),
{
    if ls.len() == 0 {
        Seq::empty()
    } else {
        list_sources(ls.drop_last()) + match line_source(ls.last()) {
            Some(Ok(x)) => seq![x],
            _ => Seq::empty(),
        }
    }
}

/// The lines that fail to parse, in order: (1-based line number, trimmed line, rejected repository part).
pub open spec fn list_skipped(ls: Seq<Seq<char>>) -> Seq<(int, Seq<char>, Seq<char>)>
    decreases ls.len(),
{
    if ls.len() == 0 {
        Seq::empty()
    } else {
        list_skipped(ls.drop_last()) + match line_source(ls.last()) {
            Some(Err(repo)) => seq![(ls.len() as int, trim_spec(ls.last()), repo)],
            _ => Seq::empty(),
        }
    }
}

/// The views of skipped lines.
pub open spec fn skipped_view(v: Seq<SkippedLine>) -> Seq<(int, Seq<char>, Seq<char>)> {
    Seq::new(v.len(), |i: int| (v[i].line_number as int, v[i].line@, v[i].error.repo_view()))
}

impl ModList {
    /// Creates a mod list from sources.
    pub fn from_sources(sources: Vec<ModSource>) -> (r: ModList)
        ensures
            r.sources@ == sources@,
    {
        ModList { sources }
    }

    /// Reads a mod list from the text of a mod list file. Each line is a mod
    /// source; lines starting with '#' are comments; empty lines are ignored.
    /// Lines that fail to parse are returned beside the list.
    pub fn parse(content: &str) -> (r: (ModList, Vec<SkippedLine>))
        ensures
            sources_view(r.0.sources@) == list_sources(lines_spec(content@)),
            skipped_view(r.1@) == list_skipped(lines_spec(content@)),
    {
        let ls = lines(content);
        let ghost lv = views(ls@);
        let mut sources: Vec<ModSource> = Vec::new();
        let mut skipped: Vec<SkippedLine> = Vec::new();
        let mut i: usize = 0;
        while i < ls.len()
            invariant
                i <= ls.len(),
                lv == views(ls@),
                lv == lines_spec(content@),
                sources_view(sources@) == list_sources(lv.take(i as int)),
                skipped_view(skipped@) == list_skipped(lv.take(i as int)),
            decreases ls.len() - i,
        {
            assert(lv.take(i + 1).drop_last() =~= lv.take(i as int));
            assert(lv.take(i + 1).last() == ls@[i as int]@);
            let t = trim(ls[i].as_str());
            let tv = chars_of(t.as_str());
            if tv.len() == 0 || tv[0] == '#' {
            } else {
                let ghost before_s = sources_view(sources@);
                let ghost before_k = skipped_view(skipped@);
                proof {
                    assert(trim_spec(t@) == t@) by {
                        lemma_trim_idempotent(ls@[i as int]@);
                    }
                }
                match ModSource::parse(t.as_str()) {
                    Ok(src) => {
                        sources.push(src);
                        assert(sources_view(sources@) =~= before_s + seq![sources@.last()@]);
                    },
                    Err(e) => {
                        skipped.push(SkippedLine { line_number: i + 1, line: t, error: e });
                        assert(skipped_view(skipped@) =~= before_k + seq![
                            ((i + 1) as int, skipped@.last().line@, skipped@.last().error.repo_view()),
                        ]);
                    },
                }
            }
            i = i + 1;
        }
        assert(lv.take(ls.len() as int) =~= lv);
        (ModList { sources }, skipped)
    }
}

pub proof fn lemma_trim_start_no_lead(s: Seq<char>)
    ensures
        trim_start_spec(s).len() == 0 || !is_white_space(trim_start_spec(s)[0]),
        trim_start_spec(trim_start_spec(s)) == trim_start_spec(s),
    decreases s.len(),
{
    if s.len() > 0 && is_white_space(s[0]) {
        lemma_trim_start_no_lead(s.drop_first());
    }
}

pub proof fn lemma_trim_end_keeps_lead(s: Seq<char>)
    ensures
        trim_end_spec(s).len() == 0 || trim_end_spec(s)[0] == s[0],
        trim_end_spec(s).len() == 0 || !is_white_space(trim_end_spec(s).last()),
        trim_end_spec(s).len() <= s.len(),
        trim_end_spec(s) == s.subrange(0, trim_end_spec(s).len() as int),
    decreases s.len(),
{
    if s.len() > 0 && is_white_space(s.last()) {
        lemma_trim_end_keeps_lead(s.drop_last());
    }
}

/// Trimming twice gives what trimming once gives.
pub proof fn lemma_trim_idempotent(s: Seq<char>)
    ensures
        trim_spec(trim_spec(s)) == trim_spec(s),
{
    let a = trim_start_spec(s);
    let b = trim_end_spec(a);
    lemma_trim_start_no_lead(s);
    lemma_trim_end_keeps_lead(a);
    lemma_trim_end_keeps_lead(b);
    // b has no leading white space, so trimming its start changes nothing
    assert(trim_start_spec(b) == b);
    // b has no trailing white space, so trimming its end changes nothing
    assert(trim_end_spec(b) == b);
}


/// The view of an optional string slice.
pub open spec fn opt_str_view(o: Option<&str>) -> Option<Seq<char>> {
    match o {
        Some(s) => Some(s@),
        None => None,
    }
}

/// A branch other than "main" and "master" is written out in a key.
pub open spec fn kept_branch(branch: Option<Seq<char>>) -> Option<Seq<char>> {
    match branch {
        Some(b) => if b != "main"@ && b != "master"@ {
            Some(b)
        } else {
            None
        },
        None => None,
    }
}

/// The key of a GitHub mod: "github:owner/repo", then ":subdir" when there is
/// one, then "@branch" when the branch is neither "main" nor "master".
pub open spec fn github_key_spec(
    repo: Seq<char>,
    subdir: Option<Seq<char>>,
    branch: Option<Seq<char>>,
) -> Seq<char> {
    "github:"@ + repo + match subdir {
        Some(d) => ":"@ + d,
        None => Seq::empty(),
    } + match kept_branch(branch) {
        Some(b) => "@"@ + b,
        None => Seq::empty(),
    }
}

/// Writes the key of a GitHub mod, as the command line program matches it
/// against the configuration that the GUI hands over.
pub fn github_source_key(repo: &str, subdir: Option<&str>, branch: Option<&str>) -> (k: String)
    ensures
        k@ == github_key_spec(repo@, opt_str_view(subdir), opt_str_view(branch)),
{
    let mut k = concat("github:", repo);
    if let Some(d) = subdir {
        let with_colon = concat(k.as_str(), ":");
        k = concat(with_colon.as_str(), d);
    }
    let ghost mid = k@;
    if let Some(b) = branch {
        if !str_equal(b, "main") && !str_equal(b, "master") {
            let with_at = concat(k.as_str(), "@");
            k = concat(with_at.as_str(), b);
        }
    }
    proof {
        let sd = match opt_str_view(subdir) {
            Some(d) => ":"@ + d,
            None => Seq::<char>::empty(),
        };
        assert(mid =~= "github:"@ + repo@ + sd);
        match kept_branch(opt_str_view(branch)) {
            Some(b) => {
                assert(k@ =~= "github:"@ + repo@ + sd + ("@"@ + b));
            },
            None => {
                assert(k@ =~= "github:"@ + repo@ + sd + Seq::<char>::empty());
            },
        }
    }
    k
}

/// A GitHub source written as a key parses back to the same source; a branch
/// "main" or "master" is left implicit and parses back as no branch. The parts
/// hold no '@' and the repository no ':', and the key has no surrounding white space.
pub proof fn law_github_key_parses_back(
    repo: Seq<char>,
    subdir: Option<Seq<char>>,
    branch: Option<Seq<char>>,
)
    requires
        repo.contains('/'),
        !repo.contains(':'),
        !repo.contains('@'),
        subdir matches Some(d) ==> !d.contains('@'),
        branch matches Some(b) ==> !b.contains('@'),
        trim_spec(github_key_spec(repo, subdir, branch)) == github_key_spec(repo, subdir, branch),
    ensures
        parse_source_spec(github_key_spec(repo, subdir, branch)) == Ok::<SourceView, Seq<char>>(
            SourceView::GitHub { repo, subdir, branch: kept_branch(branch) },
        ),
{
    reveal_strlit("github:");
    reveal_strlit(":");
    reveal_strlit("@");
    let key = github_key_spec(repo, subdir, branch);
    let sd = match subdir {
        Some(d) => ":"@ + d,
        None => Seq::<char>::empty(),
    };
    let bp = match kept_branch(branch) {
        Some(b) => "@"@ + b,
        None => Seq::<char>::empty(),
    };
    assert(key =~= "github:"@ + (repo + sd + bp));
    assert(key.subrange(0, 7) =~= "github:"@);
    assert(has_prefix(key, "github:"@));
    let rest = key.subrange(7, key.len() as int);
    assert(rest =~= repo + sd + bp);
    let rp = repo + sd;
    assert(forall|j: int| 0 <= j < repo.len() ==> repo[j] != '@');
    assert(forall|j: int| 0 <= j < repo.len() ==> repo[j] != ':');
    match kept_branch(branch) {
        Some(b) => {
            let p = rp.len() as int;
            assert(rest[p] == '@');
            assert(forall|j: int| 0 <= j < b.len() ==> b[j] != '@');
            assert forall|m: int| p < m < rest.len() implies rest[m] != '@' by {
                assert(rest[m] == b[m - p - 1]);
            }
            lemma_last_index_unique(rest, '@', p);
            assert(rest.subrange(0, p) =~= rp);
            assert(rest.subrange(p + 1, rest.len() as int) =~= b);
        },
        None => {
            assert(rest =~= rp);
            match subdir {
                Some(d) => {
                    assert(forall|j: int| 0 <= j < d.len() ==> d[j] != '@');
                    assert forall|j: int| 0 <= j < rest.len() implies rest[j] != '@' by {
                        if j >= repo.len() + 1 {
                            assert(rest[j] == d[j - repo.len() - 1]);
                        }
                    }
                },
                None => {},
            }
            lemma_last_index_none(rest, '@');
        },
    }
    match subdir {
        Some(d) => {
            let p = repo.len() as int;
            assert(rp[p] == ':');
            lemma_first_index_unique(rp, ':', p);
            assert(rp.subrange(0, p) =~= repo);
            assert(rp.subrange(p + 1, rp.len() as int) =~= d);
        },
        None => {
            assert(rp =~= repo);
            lemma_first_index_none(rp, ':');
        },
    }
}

/// The command line program finds the configuration that the front end hands
/// over for a GitHub mod: the key that it writes for the source a list line
/// parses to is that line, unless the line names the branch "main" or
/// "master", which the key leaves implicit.
pub proof fn law_source_key_is_line(
    line: Seq<char>,
    repo: Seq<char>,
    subdir: Option<Seq<char>>,
    branch: Option<Seq<char>>,
)
    requires
        trim_spec(line) == line,
        parse_source_spec(line) == Ok::<SourceView, Seq<char>>(
            SourceView::GitHub { repo, subdir, branch },
        ),
        kept_branch(branch) == branch,
    ensures
        github_key_spec(repo, subdir, branch) == line,
{
    reveal_strlit("github:");
    reveal_strlit(":");
    reveal_strlit("@");
    assert(has_prefix(line, "github:"@));
    let s = line.subrange(7, line.len() as int);
    assert(line =~= "github:"@ + s);
    lemma_last_index_props(s, '@');
    let repo_part = match last_index_of(s, '@') {
        Some(p) => s.subrange(0, p),
        None => s,
    };
    lemma_first_index_props(repo_part, ':');
    let sd = match subdir {
        Some(d) => ":"@ + d,
        None => Seq::<char>::empty(),
    };
    match first_index_of(repo_part, ':') {
        Some(q) => {
            assert(repo_part =~= repo_part.subrange(0, q) + ":"@ + repo_part.subrange(
                q + 1,
                repo_part.len() as int,
            ));
        },
        None => {},
    }
    assert(repo_part =~= repo + sd);
    match last_index_of(s, '@') {
        Some(p) => {
            assert(s =~= s.subrange(0, p) + "@"@ + s.subrange(p + 1, s.len() as int));
        },
        None => {},
    }
    let bp = match kept_branch(branch) {
        Some(b) => "@"@ + b,
        None => Seq::<char>::empty(),
    };
    assert(s =~= repo_part + bp);
    assert(github_key_spec(repo, subdir, branch) =~= "github:"@ + repo + sd + bp);
}

/// `s` split at its only `c`; `None` when `c` occurs zero times or more than once.
pub open spec fn split_at_only(s: Seq<char>, c: char) -> Option<(Seq<char>, Seq<char>)> {
    match first_index_of(s, c) {
        Some(i) => if last_index_of(s, c) == Some(i) {
            Some((s.subrange(0, i), s.subrange(i + 1, s.len() as int)))
        } else {
            None
        },
        None => None,
    }
}

/// The branch, "main" when none is given.
pub open spec fn branch_or_main(branch: Option<Seq<char>>) -> Seq<char> {
    match branch {
        Some(b) => b,
        None => "main"@,
    }
}

/// The directories, below the download cache, that hold a GitHub mod:
/// owner, repository, branch ("main" by default), then the subdirectory if any.
/// `None` when the repository is not exactly "owner/repo" (one '/').
pub open spec fn github_cache_dirs_spec(
    repo: Seq<char>,
    subdir: Option<Seq<char>>,
    branch: Option<Seq<char>>,
) -> Option<Seq<Seq<char>>> {
    match split_at_only(repo, '/') {
        Some((owner, name)) => Some(seq![owner, name, branch_or_main(branch)] + match subdir {
            Some(d) => seq![d],
            None => Seq::empty(),
        }),
        None => None,
    }
}

/// The cache directories that a GitHub key such as "github:owner/repo:subdir@branch"
/// names, read as the GUI reads it: the branch after the last '@', the
/// subdirectory after the first ':' before it. `None` for a key without the
/// "github:" prefix or with a repository that is not "owner/repo".
pub open spec fn resolve_key_dirs_spec(path: Seq<char>) -> Option<Seq<Seq<char>>> {
    if !has_prefix(path, "github:"@) {
        None
    } else {
        let s = path.subrange("github:"@.len() as int, path.len() as int);
        let (rest, branch) = match last_index_of(s, '@') {
            Some(p) => (s.subrange(0, p), Some(s.subrange(p + 1, s.len() as int))),
            None => (s, None::<Seq<char>>),
        };
        let (repo, subdir) = match first_index_of(rest, ':') {
            Some(p) => (rest.subrange(0, p), Some(rest.subrange(p + 1, rest.len() as int))),
            None => (rest, None::<Seq<char>>),
        };
        github_cache_dirs_spec(repo, subdir, branch)
    }
}

/// Where a GitHub mod is downloaded: below the owner and the repository
/// name, which joined by '/' give the repository back, comes the branch
/// exactly as given (only when no branch is given, "main"), then the
/// subdirectory when there is one.
pub proof fn law_cache_dirs_of_source(
    repo: Seq<char>,
    subdir: Option<Seq<char>>,
    branch: Option<Seq<char>>,
)
    requires
        github_cache_dirs_spec(repo, subdir, branch) is Some,
    ensures
        ({
            let dirs = github_cache_dirs_spec(repo, subdir, branch)->0;
            &&& dirs.len() == if subdir is Some { 4int } else { 3int }
            &&& dirs[0] + "/"@ + dirs[1] == repo
            &&& !dirs[0].contains('/') && !dirs[1].contains('/')
            &&& branch matches Some(b) ==> dirs[2] == b
            &&& branch is None ==> dirs[2] == "main"@
            &&& subdir matches Some(d) ==> dirs[3] == d
        }),
{
    reveal_strlit("/");
    lemma_first_index_props(repo, '/');
    lemma_last_index_props(repo, '/');
    let i = first_index_of(repo, '/')->0;
    let owner = repo.subrange(0, i);
    let name = repo.subrange(i + 1, repo.len() as int);
    assert(owner + "/"@ + name =~= repo);
    assert forall|j: int| 0 <= j < owner.len() implies owner[j] != '/' by {
        assert(owner[j] == repo[j]);
    }
    assert forall|j: int| 0 <= j < name.len() implies name[j] != '/' by {
        assert(name[j] == repo[i + 1 + j]);
    }
}

/// The cache directories of a GitHub mod (see [`github_cache_dirs_spec`]).
pub fn github_cache_dirs(repo: &str, subdir: Option<&str>, branch: Option<&str>) -> (r: Option<
    Vec<String>,
>)
    ensures
        r matches Some(v) ==> github_cache_dirs_spec(repo@, opt_str_view(subdir), opt_str_view(branch))
            == Some(views(v@)),
        r is None ==> github_cache_dirs_spec(repo@, opt_str_view(subdir), opt_str_view(branch))
            is None,
{
    let rv = chars_of(repo);
    proof {
        lemma_first_index_props(rv@, '/');
        lemma_last_index_props(rv@, '/');
    }
    let i = match find_char(&rv, '/') {
        Some(i) => i,
        None => return None,
    };
    match rfind_char(&rv, '/') {
        Some(j) => if j != i {
            return None;
        },
        None => return None,
    }
    let owner = string_from_chars(&rv, 0, i);
    let name = string_from_chars(&rv, i + 1, rv.len());
    let b = match branch {
        Some(b) => copy_str(b),
        None => copy_str("main"),
    };
    let mut dirs: Vec<String> = Vec::new();
    dirs.push(owner);
    dirs.push(name);
    dirs.push(b);
    if let Some(d) = subdir {
        dirs.push(copy_str(d));
    }
    proof {
        let want = github_cache_dirs_spec(repo@, opt_str_view(subdir), opt_str_view(branch));
        assert(want matches Some(w) && views(dirs@) =~= w);
    }
    Some(dirs)
}

/// The cache directories that a GitHub key names (see [`resolve_key_dirs_spec`]).
pub fn resolve_github_key(path: &str) -> (r: Option<Vec<String>>)
    ensures
        r matches Some(v) ==> resolve_key_dirs_spec(path@) == Some(views(v@)),
        r is None ==> resolve_key_dirs_spec(path@) is None,
{
    let v = chars_of(path);
    let prefix = chars_of("github:");
    if !starts_with_chars(&v, &prefix) {
        return None;
    }
    let s = sub_chars(&v, prefix.len(), v.len());
    proof {
        lemma_last_index_props(s@, '@');
    }
    let (rest, branch) = match rfind_char(&s, '@') {
        Some(p) => (sub_chars(&s, 0, p), Some(string_from_chars(&s, p + 1, s.len()))),
        None => (sub_chars(&s, 0, s.len()), None),
    };
    assert(s@.subrange(0, s@.len() as int) =~= s@);
    proof {
        lemma_first_index_props(rest@, ':');
    }
    let (repo, subdir) = match find_char(&rest, ':') {
        Some(p) => (
            string_from_chars(&rest, 0, p),
            Some(string_from_chars(&rest, p + 1, rest.len())),
        ),
        None => (string_from_chars(&rest, 0, rest.len()), None),
    };
    assert(rest@.subrange(0, rest@.len() as int) =~= rest@);
    let r = match (&subdir, &branch) {
        (Some(d), Some(b)) => github_cache_dirs(repo.as_str(), Some(d.as_str()), Some(b.as_str())),
        (Some(d), None) => github_cache_dirs(repo.as_str(), Some(d.as_str()), None),
        (None, Some(b)) => github_cache_dirs(repo.as_str(), None, Some(b.as_str())),
        (None, None) => github_cache_dirs(repo.as_str(), None, None),
    };
    r
}

/// A mod that the GUI lists under a GitHub key is looked for in the cache
/// directory where the downloader put the source that the key parses to.
pub proof fn law_key_dirs_match_download_dirs(
    key: Seq<char>,
    repo: Seq<char>,
    subdir: Option<Seq<char>>,
    branch: Option<Seq<char>>,
)
    requires
        trim_spec(key) == key,
        parse_source_spec(key) == Ok::<SourceView, Seq<char>>(
            SourceView::GitHub { repo, subdir, branch },
        ),
    ensures
        resolve_key_dirs_spec(key) == github_cache_dirs_spec(repo, subdir, branch),
{
}

} // verus!
