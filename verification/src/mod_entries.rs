//! The list of mods that the graphical front end keeps: entries, their order,
//! the mod list file it reads and writes, and GitHub repository addresses.
use vstd::prelude::*;
use crate::config::UserConfig;
use crate::mod_sources::{github_key_spec, github_source_key, opt_str_view, resolve_github_key, resolve_key_dirs_spec};
use crate::text::{
    chars_of, concat, copy_str, first_index_of, has_prefix, join, join_spec, last_index_of,
    lemma_first_index_props, lemma_last_index_props, lines, lines_spec, str_equal,
    string_from_chars, trim, trim_spec, views, find_char, rfind_char,
};
use crate::mod_sources::sub_chars;

verus! {

/// A mod in the list.
#[derive(Debug)]
pub struct ModEntry {
    /// Local path, or a GitHub key "github:owner/repo[:subdir][@branch]".
    pub path: String,
    pub enabled: bool,
    pub name: String,
    /// The user's configuration values (option id to value).
    pub user_config: UserConfig,
}

impl ModEntry {
    /// The cache directories of a GitHub entry (see `resolve_key_dirs_spec`);
    /// `None` for a local entry.
    pub fn resolve_github_path(&self) -> (r: Option<Vec<String>>)
        ensures
            r matches Some(v) ==> resolve_key_dirs_spec(self.path@) == Some(views(v@)),
            r is None ==> resolve_key_dirs_spec(self.path@) is None,
    {
        resolve_github_key(self.path.as_str())
    }
}

/// First position at or after `i` where `p` begins in `s`.
pub open spec fn find_sub_from(s: Seq<char>, p: Seq<char>, i: int) -> Option<int>
    decreases s.len() - i,
{
    if i < 0 || i + p.len() > s.len() {
        None
    } else if s.subrange(i, i + p.len()) == p {
        Some(i)
    } else if i >= s.len() {
        None
    } else {
        find_sub_from(s, p, i + 1)
    }
}

/// The first two '/'-separated parts of `s`, when it has at least two.
pub open spec fn first_two_parts(s: Seq<char>) -> Option<(Seq<char>, Seq<char>)> {
    match first_index_of(s, '/') {
        Some(i) => {
            let rest = s.subrange(i + 1, s.len() as int);
            let second = match first_index_of(rest, '/') {
                Some(j) => rest.subrange(0, j),
                None => rest,
            };
            Some((s.subrange(0, i), second))
        },
        None => None,
    }
}

/// "owner/repo" from the first two parts, when there are two.
pub open spec fn owner_repo(s: Seq<char>) -> Option<Seq<char>> {
    match first_two_parts(s) {
        Some((a, b)) => Some(a + "/"@ + b),
        None => None,
    }
}

/// The repository ("owner/repo") that a GitHub address names:
/// "https://github.com/owner/repo...", "github.com/owner/repo...", or
/// "owner/repo" (with no ':'). The address is trimmed first.
pub open spec fn parse_github_url_spec(url: Seq<char>) -> Option<Seq<char>> {
    let u = trim_spec(url);
    match find_sub_from(u, "github.com/"@, 0) {
        Some(idx) => owner_repo(u.subrange(idx + "github.com/"@.len(), u.len() as int)),
        None => if u.contains('/') && !u.contains(':') {
            owner_repo(u)
        } else {
            None
        },
    }
}

fn find_sub(s: &Vec<char>, p: &Vec<char>) -> (r: Option<usize>)
    ensures
        r matches Some(i) ==> find_sub_from(s@, p@, 0) == Some(i as int) && i + p@.len() <= s@.len(),
        r is None ==> find_sub_from(s@, p@, 0) is None,
{
    if p.len() > s.len() {
        return None;
    }
    let mut i: usize = 0;
    while i <= s.len() - p.len()
        invariant
            p@.len() <= s@.len(),
            find_sub_from(s@, p@, 0) == find_sub_from(s@, p@, i as int),
        decreases s.len() - i,
    {
        let mut k: usize = 0;
        let mut same = true;
        while k < p.len()
            invariant
                i + p@.len() <= s@.len(),
                s@.len() == s.len(),
                k <= p@.len(),
                same == forall|m: int| 0 <= m < k ==> s@[i + m] == p@[m],
            decreases p.len() - k,
        {
            if s[i + k] != p[k] {
                same = false;
            }
            k = k + 1;
        }
        if same {
            assert(s@.subrange(i as int, i + p@.len()) =~= p@);
            return Some(i);
        } else if i >= s.len() {
            proof {
                let m = choose|m: int| 0 <= m < p@.len() && s@[i + m] != p@[m];
            }
            return None;
        } else {
            proof {
                let m = choose|m: int| 0 <= m < p@.len() && s@[i + m] != p@[m];
                assert(s@.subrange(i as int, i + p@.len())[m] != p@[m]);
            }
        }
        i = i + 1;
    }
    None
}

fn owner_repo_of(s: &Vec<char>) -> (r: Option<String>)
    ensures
        r matches Some(t) ==> owner_repo(s@) == Some(t@),
        r is None ==> owner_repo(s@) is None,
{
    proof {
        lemma_first_index_props(s@, '/');
    }
    match find_char(s, '/') {
        Some(i) => {
            let n = s.len();
            assert(i < n);
            let rest = sub_chars(s, i + 1, n);
            proof {
                lemma_first_index_props(rest@, '/');
            }
            let second = match find_char(&rest, '/') {
                Some(j) => string_from_chars(&rest, 0, j),
                None => string_from_chars(&rest, 0, rest.len()),
            };
            assert(rest@.subrange(0, rest@.len() as int) =~= rest@);
            let first = string_from_chars(s, 0, i);
            let with_slash = concat(first.as_str(), "/");
            Some(concat(with_slash.as_str(), second.as_str()))
        },
        None => None,
    }
}

/// The repository ("owner/repo") that a GitHub address names (see
/// [`parse_github_url_spec`]).
pub fn parse_github_url(url: &str) -> (r: Option<String>)
    ensures
        r matches Some(t) ==> parse_github_url_spec(url@) == Some(t@),
        r is None ==> parse_github_url_spec(url@) is None,
{
    let t = trim(url);
    let u = chars_of(t.as_str());
    let marker = chars_of("github.com/");
    match find_sub(&u, &marker) {
        Some(idx) => {
            let after = sub_chars(&u, idx + marker.len(), u.len());
            owner_repo_of(&after)
        },
        None => {
            let has_slash = crate::text::contains_char(&u, '/');
            let has_colon = crate::text::contains_char(&u, ':');
            if has_slash && !has_colon {
                owner_repo_of(&u)
            } else {
                None
            }
        },
    }
}

/// The name shown for a repository: its part after the last '/'.
pub open spec fn repo_name_spec(repo: Seq<char>) -> Seq<char> {
    match last_index_of(repo, '/') {
        Some(i) => repo.subrange(i + 1, repo.len() as int),
        None => repo,
    }
}

/// The name shown for a repository: its part after the last '/'.
pub fn repo_display_name(repo: &str) -> (r: String)
    ensures
        r@ == repo_name_spec(repo@),
{
    let v = chars_of(repo);
    proof {
        lemma_last_index_props(v@, '/');
    }
    match rfind_char(&v, '/') {
        Some(i) => string_from_chars(&v, i + 1, v.len()),
        None => {
            assert(v@.subrange(0, v@.len() as int) =~= v@);
            string_from_chars(&v, 0, v.len())
        },
    }
}

/// A chosen subdirectory counts unless it is empty or the root entry "(根目录)".
pub open spec fn chosen_subdir(subdir: Option<Seq<char>>) -> Option<Seq<char>> {
    match subdir {
        Some(d) => if d.len() > 0 && d != "(根目录)"@ {
            Some(d)
        } else {
            None
        },
        None => None,
    }
}

/// The key under which a GitHub mod chosen in the front end is listed.
pub fn github_mod_key(repo: &str, subdir: Option<&str>, branch: Option<&str>) -> (k: String)
    ensures
        k@ == github_key_spec(repo@, chosen_subdir(opt_str_view(subdir)), opt_str_view(branch)),
{
    let kept = match subdir {
        Some(d) => if chars_of(d).len() > 0 && !str_equal(d, "(根目录)") {
            Some(d)
        } else {
            None
        },
        None => None,
    };
    assert(opt_str_view(kept) == chosen_subdir(opt_str_view(subdir)));
    github_source_key(repo, kept, branch)
}

/// Moves the entry at `index` one place up (towards the front); nothing
/// happens for the first entry or an index past the end.
pub fn move_mod_up<T>(mods: &mut Vec<T>, index: usize)
    ensures
        0 < index < old(mods)@.len() ==> final(mods)@ == old(mods)@.update(
            index - 1,
            old(mods)@[index as int],
        ).update(index as int, old(mods)@[index - 1]),
        !(0 < index < old(mods)@.len()) ==> final(mods)@ == old(mods)@,
{
    if index > 0 && index < mods.len() {
        let x = mods.remove(index);
        mods.insert(index - 1, x);
        assert(mods@ =~= old(mods)@.update(index - 1, old(mods)@[index as int]).update(
            index as int,
            old(mods)@[index - 1],
        ));
    }
}

/// Moves the entry at `index` one place down (towards the end); nothing
/// happens for the last entry or an index past the end.
pub fn move_mod_down<T>(mods: &mut Vec<T>, index: usize)
    ensures
        index + 1 < old(mods)@.len() ==> final(mods)@ == old(mods)@.update(
            index as int,
            old(mods)@[index + 1],
        ).update(index + 1, old(mods)@[index as int]),
        !(index + 1 < old(mods)@.len()) ==> final(mods)@ == old(mods)@,
{
    if mods.len() > 0 && index < mods.len() - 1 {
        let x = mods.remove(index + 1);
        mods.insert(index, x);
        assert(mods@ =~= old(mods)@.update(index as int, old(mods)@[index + 1]).update(
            index + 1,
            old(mods)@[index as int],
        ));
    }
}

/// Removes the entry at `index`; nothing happens for an index past the end.
pub fn remove_mod<T>(mods: &mut Vec<T>, index: usize)
    ensures
        index < old(mods)@.len() ==> final(mods)@ == old(mods)@.remove(index as int),
        index >= old(mods)@.len() ==> final(mods)@ == old(mods)@,
{
    if index < mods.len() {
        mods.remove(index);
    }
}

/// The paths of the enabled entries, in order.
pub open spec fn enabled_paths(mods: Seq<ModEntry>) -> Seq<Seq<char>>
    decreases mods.len(),
{
    if mods.len() == 0 {
        Seq::empty()
    } else {
        enabled_paths(mods.drop_last()) + if mods.last().enabled {
            seq![mods.last().path@]
        } else {
            Seq::empty()
        }
    }
}

/// The text of the mod list file: the paths of the enabled entries, one per
/// line, with no line ending after the last.
pub fn mod_list_text(mods: &Vec<ModEntry>) -> (r: String)
    ensures
        r@ == join_spec(enabled_paths(mods@), "\n"@),
{
    let mut paths: Vec<String> = Vec::new();
    let mut i: usize = 0;
    while i < mods.len()
        invariant
            i <= mods@.len(),
            views(paths@) == enabled_paths(mods@.take(i as int)),
        decreases mods.len() - i,
    {
        assert(mods@.take(i + 1).drop_last() =~= mods@.take(i as int));
        if mods[i].enabled {
            let ghost before = views(paths@);
            paths.push(copy_str(mods[i].path.as_str()));
            assert(views(paths@) =~= before.push(mods@[i as int].path@));
        }
        i = i + 1;
    }
    assert(mods@.take(mods@.len() as int) =~= mods@);
    join(&paths, "\n")
}

/// The entries that a mod list file names: its lines, trimmed, without empty
/// lines and lines that start with '#'.
pub open spec fn list_entries_spec(ls: Seq<Seq<char>>) -> Seq<Seq<char>>
    decreases ls.len(),
{
    if ls.len() == 0 {
        Seq::empty()
    } else {
        let t = trim_spec(ls.last());
        list_entries_spec(ls.drop_last()) + if t.len() > 0 && t[0] != '#' {
            seq![t]
        } else {
            Seq::empty()
        }
    }
}

/// The entries that the text of a mod list file names.
pub fn mod_list_entries(content: &str) -> (r: Vec<String>)
    ensures
        views(r@) == list_entries_spec(lines_spec(content@)),
{
    let ls = lines(content);
    let ghost lv = views(ls@);
    let mut r: Vec<String> = Vec::new();
    let mut i: usize = 0;
    while i < ls.len()
        invariant
            i <= ls@.len(),
            lv == views(ls@),
            lv == lines_spec(content@),
            views(r@) == list_entries_spec(lv.take(i as int)),
        decreases ls.len() - i,
    {
        assert(lv.take(i + 1).drop_last() =~= lv.take(i as int));
        assert(lv.take(i + 1).last() == ls@[i as int]@);
        let t = trim(ls[i].as_str());
        let tv = chars_of(t.as_str());
        if tv.len() > 0 && tv[0] != '#' {
            let ghost before = views(r@);
            r.push(t);
            assert(views(r@) =~= before.push(r@.last()@));
        }
        i = i + 1;
    }
    assert(lv.take(ls@.len() as int) =~= lv);
    r
}

/// Entries that are already trimmed, non-empty and not comments are kept as they are.
proof fn lemma_entries_of_clean(ps: Seq<Seq<char>>)
    requires
        forall|i: int|
            0 <= i < ps.len() ==> (#[trigger] ps[i]).len() > 0 && trim_spec(ps[i]) == ps[i]
                && ps[i][0] != '#',
    ensures
        list_entries_spec(ps) == ps,
    decreases ps.len(),
{
    if ps.len() > 0 {
        lemma_entries_of_clean(ps.drop_last());
        assert(ps.drop_last().push(ps.last()) =~= ps);
        assert(ps[ps.len() - 1] == ps.last());
    }
}

/// Saving the mod list and loading it again gives the enabled entries, in
/// order, when every enabled path is a non-empty line without surrounding
/// white space that does not start with '#' (or end with '\r').
pub proof fn law_mod_list_save_load(mods: Seq<ModEntry>)
    requires
        forall|i: int|
            0 <= i < enabled_paths(mods).len() ==> {
                let p = #[trigger] enabled_paths(mods)[i];
                &&& p.len() > 0
                &&& !p.contains('\n')
                &&& p.last() != '\r'
                &&& trim_spec(p) == p
                &&& p[0] != '#'
            },
    ensures
        list_entries_spec(lines_spec(join_spec(enabled_paths(mods), "\n"@)))
            == enabled_paths(mods),
{
    crate::text::lemma_lines_of_join(enabled_paths(mods));
    lemma_entries_of_clean(enabled_paths(mods));
}

/// Sources parse line by line: clean lines that all parse give their sources in order.
proof fn lemma_sources_of_clean(ps: Seq<Seq<char>>)
    requires
        forall|i: int|
            0 <= i < ps.len() ==> (#[trigger] ps[i]).len() > 0 && trim_spec(ps[i]) == ps[i]
                && ps[i][0] != '#' && crate::mod_sources::parse_source_spec(ps[i]) is Ok,
    ensures
        crate::mod_sources::list_sources(ps) == Seq::new(
            ps.len(),
            |i: int| crate::mod_sources::parse_source_spec(ps[i])->Ok_0,
        ),
        crate::mod_sources::list_skipped(ps) == Seq::<(int, Seq<char>, Seq<char>)>::empty(),
    decreases ps.len(),
{
    if ps.len() > 0 {
        lemma_sources_of_clean(ps.drop_last());
        assert(ps[ps.len() - 1] == ps.last());
        assert(crate::mod_sources::list_sources(ps) =~= Seq::new(
            ps.len(),
            |i: int| crate::mod_sources::parse_source_spec(ps[i])->Ok_0,
        ));
    }
}

/// The mod list that the front end hands to the command line program gives it
/// the enabled mods, in order, and skips none, when every enabled path is a
/// clean line (as in [`law_mod_list_save_load`]) that parses as a source.
pub proof fn law_mod_list_handover(mods: Seq<ModEntry>)
    requires
        forall|i: int|
            0 <= i < enabled_paths(mods).len() ==> {
                let p = #[trigger] enabled_paths(mods)[i];
                &&& p.len() > 0
                &&& !p.contains('\n')
                &&& p.last() != '\r'
                &&& trim_spec(p) == p
                &&& p[0] != '#'
                &&& crate::mod_sources::parse_source_spec(p) is Ok
            },
    ensures
        crate::mod_sources::list_sources(lines_spec(join_spec(enabled_paths(mods), "\n"@)))
            == Seq::new(
            enabled_paths(mods).len(),
            |i: int| crate::mod_sources::parse_source_spec(enabled_paths(mods)[i])->Ok_0,
        ),
        crate::mod_sources::list_skipped(lines_spec(join_spec(enabled_paths(mods), "\n"@)))
            == Seq::<(int, Seq<char>, Seq<char>)>::empty(),
{
    crate::text::lemma_lines_of_join(enabled_paths(mods));
    lemma_sources_of_clean(enabled_paths(mods));
}

/// `a` comes before `b`, or equals it, in the order of strings: by the code
/// points of the characters, and a prefix before what it starts.
pub open spec fn text_le(a: Seq<char>, b: Seq<char>) -> bool
    decreases a.len(),
{
    if a.len() == 0 {
        true
    } else if b.len() == 0 {
        false
    } else if a[0] != b[0] {
        a[0] < b[0]
    } else {
        text_le(a.drop_first(), b.drop_first())
    }
}

/// Of two strings, one comes before the other.
proof fn lemma_text_le_total(a: Seq<char>, b: Seq<char>)
    ensures
        text_le(a, b) || text_le(b, a),
    decreases a.len(),
{
    if a.len() > 0 && b.len() > 0 {
        if a[0] == b[0] {
            lemma_text_le_total(a.drop_first(), b.drop_first());
        }
    }
}

/// The order of strings is transitive.
proof fn lemma_text_le_trans(a: Seq<char>, b: Seq<char>, c: Seq<char>)
    requires
        text_le(a, b),
        text_le(b, c),
    ensures
        text_le(a, c),
    decreases a.len(),
{
    if a.len() > 0 && b.len() > 0 && c.len() > 0 && a[0] == b[0] && b[0] == c[0] {
        lemma_text_le_trans(a.drop_first(), b.drop_first(), c.drop_first());
    }
}

/// Whether `a` comes before `b`, or equals it, in the order of strings.
fn text_le_chars(a: &Vec<char>, b: &Vec<char>) -> (r: bool)
    ensures
        r == text_le(a@, b@),
{
    let mut i: usize = 0;
    assert(a@.skip(0) =~= a@);
    assert(b@.skip(0) =~= b@);
    while i < a.len() && i < b.len() && a[i] == b[i]
        invariant
            i <= a@.len(),
            i <= b@.len(),
            text_le(a@, b@) == text_le(a@.skip(i as int), b@.skip(i as int)),
        decreases a.len() - i,
    {
        assert(a@.skip(i as int).drop_first() =~= a@.skip(i + 1));
        assert(b@.skip(i as int).drop_first() =~= b@.skip(i + 1));
        i = i + 1;
    }
    if i == a.len() {
        true
    } else if i == b.len() {
        false
    } else {
        a[i] < b[i]
    }
}

/// Every string comes before, or equals, every later one.
pub open spec fn texts_sorted(s: Seq<Seq<char>>) -> bool {
    forall|i: int, j: int| 0 <= i < j < s.len() ==> text_le(s[i], s[j])
}

/// The paths of the directory entries (type "tree") of a repository's tree,
/// given as (type, path) pairs, in order.
pub open spec fn tree_paths(entries: Seq<(String, String)>) -> Seq<Seq<char>>
    decreases entries.len(),
{
    if entries.len() == 0 {
        Seq::empty()
    } else {
        tree_paths(entries.drop_last()) + if entries.last().0@ == "tree"@ {
            seq![entries.last().1@]
        } else {
            Seq::empty()
        }
    }
}

/// Inserts a string into a sorted vector of strings where it belongs.
fn insert_sorted(v: &mut Vec<String>, x: String)
    requires
        texts_sorted(views(old(v)@)),
    ensures
        texts_sorted(views(final(v)@)),
        views(final(v)@).to_multiset() == views(old(v)@).to_multiset().insert(x@),
{
    let xv = chars_of(x.as_str());
    let mut p: usize = 0;
    while p < v.len() && text_le_chars(&chars_of(v[p].as_str()), &xv)
        invariant
            p <= v@.len(),
            xv@ == x@,
            forall|q: int| 0 <= q < p ==> text_le(#[trigger] v@[q]@, x@),
        decreases v.len() - p,
    {
        p = p + 1;
    }
    let ghost before = views(v@);
    let ghost xs = x@;
    v.insert(p, x);
    proof {
        assert(views(v@) =~= before.insert(p as int, xs));
        vstd::seq_lib::to_multiset_insert(before, p as int, xs);
        let after = views(v@);
        if p < before.len() {
            lemma_text_le_total(before[p as int], xs);
        }
        assert forall|i: int, j: int| 0 <= i < j < after.len() implies text_le(after[i], after[j]) by {
            if j < p {
                assert(after[i] == before[i] && after[j] == before[j]);
            } else if j == p {
                assert(after[i] == before[i]);
                assert(text_le(v@[i]@, xs));
            } else if i == p {
                assert(after[j] == before[j - 1]);
                if j - 1 > p {
                    assert(text_le(before[p as int], before[j - 1]));
                    lemma_text_le_trans(xs, before[p as int], before[j - 1]);
                }
            } else if i < p {
                assert(after[i] == before[i]);
                assert(after[j] == before[j - 1]);
            } else {
                assert(after[i] == before[i - 1]);
                assert(after[j] == before[j - 1]);
            }
        }
    }
}

/// The subdirectories offered for a repository: the root entry "(根目录)",
/// then the paths of the tree's directory entries in ascending order.
pub fn subdir_choices(entries: &Vec<(String, String)>) -> (r: Vec<String>)
    ensures
        r@.len() == tree_paths(entries@).len() + 1,
        r@[0]@ == "(根目录)"@,
        views(r@).drop_first().to_multiset() == tree_paths(entries@).to_multiset(),
        texts_sorted(views(r@).drop_first()),
{
    broadcast use vstd::seq_lib::group_to_multiset_ensures;

    let mut dirs: Vec<String> = Vec::new();
    let mut k: usize = 0;
    while k < entries.len()
        invariant
            k <= entries@.len(),
            texts_sorted(views(dirs@)),
            views(dirs@).to_multiset() == tree_paths(entries@.take(k as int)).to_multiset(),
        decreases entries.len() - k,
    {
        assert(entries@.take(k + 1).drop_last() =~= entries@.take(k as int));
        assert(entries@.take(k + 1).last() == entries@[k as int]);
        let ghost tp = tree_paths(entries@.take(k as int));
        if str_equal(entries[k].0.as_str(), "tree") {
            insert_sorted(&mut dirs, copy_str(entries[k].1.as_str()));
            assert(tree_paths(entries@.take(k + 1)) =~= tp.push(entries@[k as int].1@));
            proof {
                vstd::seq_lib::to_multiset_build(tp, entries@[k as int].1@);
            }
        } else {
            assert(tree_paths(entries@.take(k + 1)) =~= tree_paths(entries@.take(k as int)));
        }
        k = k + 1;
    }
    assert(entries@.take(entries@.len() as int) =~= entries@);
    let ghost sorted = views(dirs@);
    dirs.insert(0, copy_str("(根目录)"));
    assert(views(dirs@).drop_first() =~= sorted);
    assert(views(dirs@).len() == dirs@.len());
    assert(sorted.to_multiset().len() == sorted.len());
    dirs
}

/// Why the front end cannot generate the mods yet.
#[derive(Debug, PartialEq, Eq, Structural)]
pub enum GenerateError {
    /// No game path has been chosen.
    NoGamePath,
    /// The mod list is empty.
    NoMods,
    /// No mod in the list is enabled.
    NoEnabledMods,
}

impl GenerateError {
    /// The status message shown for the error.
    pub fn message(&self) -> (m: String)
        ensures
            m@ == match self {
                GenerateError::NoGamePath => "请先选择游戏路径"@,
                GenerateError::NoMods => "请先添加Mod"@,
                GenerateError::NoEnabledMods => "没有启用的Mod"@,
            },
    {
        match self {
            GenerateError::NoGamePath => copy_str("请先选择游戏路径"),
            GenerateError::NoMods => copy_str("请先添加Mod"),
            GenerateError::NoEnabledMods => copy_str("没有启用的Mod"),
        }
    }
}

/// The checks before the front end generates the mods: a game path must be
/// chosen, the list must hold a mod and one of them must be enabled. On
/// success, the paths of the enabled mods in order, which the mod list file
/// handed to the command line program holds.
pub fn generate_plan(game_path: &str, mods: &Vec<ModEntry>) -> (r: Result<Vec<String>, GenerateError>)
    ensures
        game_path@.len() == 0 ==> r == Err::<Vec<String>, GenerateError>(GenerateError::NoGamePath),
        game_path@.len() > 0 && mods@.len() == 0 ==> r == Err::<Vec<String>, GenerateError>(
            GenerateError::NoMods,
        ),
        game_path@.len() > 0 && mods@.len() > 0 && enabled_paths(mods@).len() == 0 ==> r == Err::<
            Vec<String>,
            GenerateError,
        >(GenerateError::NoEnabledMods),
        r matches Ok(paths) ==> game_path@.len() > 0 && views(paths@) == enabled_paths(mods@)
            && paths@.len() > 0,
        game_path@.len() > 0 && enabled_paths(mods@).len() > 0 ==> r is Ok,
{
    if chars_of(game_path).len() == 0 {
        return Err(GenerateError::NoGamePath);
    }
    if mods.len() == 0 {
        return Err(GenerateError::NoMods);
    }
    let mut paths: Vec<String> = Vec::new();
    let mut i: usize = 0;
    while i < mods.len()
        invariant
            i <= mods@.len(),
            views(paths@) == enabled_paths(mods@.take(i as int)),
        decreases mods.len() - i,
    {
        assert(mods@.take(i + 1).drop_last() =~= mods@.take(i as int));
        if mods[i].enabled {
            let ghost before = views(paths@);
            paths.push(copy_str(mods[i].path.as_str()));
            assert(views(paths@) =~= before.push(mods@[i as int].path@));
        }
        i = i + 1;
    }
    assert(mods@.take(mods@.len() as int) =~= mods@);
    if paths.len() == 0 {
        return Err(GenerateError::NoEnabledMods);
    }
    Ok(paths)
}

} // verus!
