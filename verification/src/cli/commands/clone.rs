//! `clone`: clone a target repository, and with `--fork` push it to a new
//! repository on the user's account.
//!
//! The git and `gh` work is done by the command's driver; this module reads
//! the repository URL, names the target directory and the new origin, and
//! reads the GitHub login out of `gh api /user --jq .login`.
use vstd::prelude::*;

use crate::orchestrator::self_mode::{github_clone_url, github_https_url};
use crate::text::{
    after_last, after_last_char, chars_of, is_white_space, lemma_after_last_has_no_sep,
    lemma_after_last_of_joined, lemma_trim_end_after_space, lemma_trim_start_before_char,
    lemma_strip_trailing_char_ends, lemma_strip_trailing_seq_ends, string_from_chars,
    strip_trailing, strip_trailing_char, strip_trailing_seq, strip_trailing_suffix, trim,
    trim_chars, trim_end, trim_start,
};

verus! {

/// Errors of the `clone` command.
#[derive(Debug, Clone, Copy, PartialEq, Eq, Structural)]
pub enum CloneError {
    /// The repository URL is empty (after trimming).
    EmptyUrl,
    /// `gh` printed no login name.
    UnknownUsername,
}

/// What to clone, and where.
#[derive(Debug, Clone)]
pub struct ClonePlan {
    /// The repository URL, trimmed and without trailing slashes.
    pub repo_url: String,
    /// The repository's name: the last segment of the URL without `.git`.
    pub repo_name: String,
    /// The directory to clone into.
    pub target_dir: String,
}

/// The URL as the command uses it: trimmed, trailing slashes removed.
pub open spec fn cleaned_url(url: Seq<char>) -> Seq<char> {
    strip_trailing_char(trim(url), '/')
}

/// The repository name named by a cleaned URL: its last `/` segment with
/// every trailing `.git` removed.
pub open spec fn repo_name_of(url: Seq<char>) -> Seq<char> {
    strip_trailing_seq(after_last(url, '/'), ".git"@)
}

/// Reads the repository URL given to `clone` and the optional target
/// directory. Fails when the URL is empty; the target directory defaults to
/// the repository's name.
pub fn plan_clone(url: &str, path: Option<&str>) -> (r: Result<ClonePlan, CloneError>)
    ensures
        cleaned_url(url@).len() == 0 <==> r is Err,
        r matches Err(e) ==> e == CloneError::EmptyUrl,
        r matches Ok(p) ==> {
            &&& p.repo_url@ == cleaned_url(url@)
            &&& p.repo_name@ == repo_name_of(cleaned_url(url@))
            &&& p.target_dir@ == match path {
                Some(d) => d@,
                None => repo_name_of(cleaned_url(url@)),
            }
            &&& p.repo_url@.last() != '/'
            &&& forall|k: int| 0 <= k < p.repo_name@.len() ==> #[trigger] p.repo_name@[k] != '/'
            &&& !(4 <= p.repo_name@.len() && p.repo_name@.subrange(
                p.repo_name@.len() - 4,
                p.repo_name@.len() as int,
            ) == ".git"@)
        },
{
    let raw = chars_of(url);
    let trimmed = trim_chars(&raw);
    let cleaned = strip_trailing(&trimmed, '/');
    if cleaned.len() == 0 {
        return Err(CloneError::EmptyUrl);
    }
    let last = after_last_char(&cleaned, '/');
    let git = chars_of(".git");
    proof {
        reveal_strlit(".git");
    }
    let name = strip_trailing_suffix(&last, &git);
    proof {
        lemma_strip_trailing_char_ends(trim(url@), '/');
        lemma_after_last_has_no_sep(cleaned@, '/');
        lemma_strip_trailing_seq_ends(last@, git@);
        let n = name@;
        assert forall|k: int| 0 <= k < n.len() implies #[trigger] n[k] != '/' by {
            assert(n[k] == last@.take(n.len() as int)[k]);
            assert(last@[k] != '/');
        }
    }
    let repo_name = string_from_chars(&name);
    let target_dir = match path {
        Some(d) => String::from_str(d),
        None => string_from_chars(&name),
    };
    Ok(ClonePlan { repo_url: string_from_chars(&cleaned), repo_name, target_dir })
}

/// The new `origin` of a forked clone:
/// `https://github.com/{username}/{repo_name}.git`.
pub fn fork_origin_url(username: &str, repo_name: &str) -> (r: String)
    ensures
        r@ == github_clone_url(username@, repo_name@),
{
    github_https_url(username, repo_name)
}

/// Reads the login printed by `gh api /user --jq .login`: the output
/// trimmed, which must not be empty.
pub fn login_from_output(stdout: &str) -> (r: Result<String, CloneError>)
    ensures
        trim(stdout@).len() == 0 <==> r is Err,
        r matches Err(e) ==> e == CloneError::UnknownUsername,
        r matches Ok(s) ==> s@ == trim(stdout@),
{
    let raw = chars_of(stdout);
    let trimmed = trim_chars(&raw);
    if trimmed.len() == 0 {
        Err(CloneError::UnknownUsername)
    } else {
        Ok(string_from_chars(&trimmed))
    }
}

/// Every trailing `.git` of the last segment is removed, not only the last
/// one: one more `.git` does not change the repository name.
pub proof fn lemma_repo_name_strips_every_git(base: Seq<char>, name: Seq<char>)
    requires
        forall|k: int| 0 <= k < name.len() ==> #[trigger] name[k] != '/',
    ensures
        repo_name_of(base + "/"@ + name + ".git"@) == repo_name_of(base + "/"@ + name),
{
    reveal_strlit("/");
    reveal_strlit(".git");
    let git = ".git"@;
    assert("/"@ =~= seq!['/']);
    lemma_after_last_of_joined(base, '/', name);
    let named = name + git;
    assert forall|k: int| 0 <= k < named.len() implies #[trigger] named[k] != '/' by {
        if k >= name.len() {
            assert(named[k] == git[k - name.len()]);
        }
    }
    lemma_after_last_of_joined(base, '/', named);
    assert(base + "/"@ + name + git =~= base + seq!['/'] + named);
    assert(named.subrange(named.len() - 4, named.len() as int) =~= git);
    assert(named.subrange(0, named.len() - 4) =~= name);
}

/// A URL with no surrounding whitespace and no trailing `/` is used as given.
pub proof fn lemma_clean_url_unchanged(url: Seq<char>)
    requires
        url.len() > 0,
        !is_white_space(url[0]),
        !is_white_space(url.last()),
        url.last() != '/',
    ensures
        cleaned_url(url) == url,
{
    assert(trim_end(url) == url);
    assert(trim_start(url) == url);
}

/// The repository name is the URL's last `/` segment, kept whole (dots
/// included) when it does not end with `.git`, and without that `.git` when
/// it does.
pub proof fn lemma_repo_name_is_last_segment(base: Seq<char>, name: Seq<char>)
    requires
        forall|k: int| 0 <= k < name.len() ==> #[trigger] name[k] != '/',
        !(4 <= name.len() && name.subrange(name.len() - 4, name.len() as int) == ".git"@),
    ensures
        repo_name_of(base + "/"@ + name) == name,
        repo_name_of(base + "/"@ + name + ".git"@) == name,
{
    reveal_strlit("/");
    reveal_strlit(".git");
    let git = ".git"@;
    assert("/"@ =~= seq!['/']);
    lemma_after_last_of_joined(base, '/', name);
    let named = name + git;
    assert forall|k: int| 0 <= k < named.len() implies #[trigger] named[k] != '/' by {
        if k >= name.len() {
            assert(named[k] == git[k - name.len()]);
        }
    }
    lemma_after_last_of_joined(base, '/', named);
    assert(base + "/"@ + name + git =~= base + seq!['/'] + named);
    assert(named.subrange(named.len() - 4, named.len() as int) =~= git);
    assert(named.subrange(0, named.len() - 4) =~= name);
}

/// `clone` on a plain URL (no surrounding whitespace, no trailing `/`) names
/// the repository, and by default the target directory, by the URL's whole
/// last segment, without a trailing `.git`.
pub proof fn lemma_plain_url_repo_name(base: Seq<char>, name: Seq<char>)
    requires
        base.len() == 0 || !is_white_space(base[0]),
        name.len() > 0,
        !is_white_space(name.last()),
        forall|k: int| 0 <= k < name.len() ==> #[trigger] name[k] != '/',
        !(4 <= name.len() && name.subrange(name.len() - 4, name.len() as int) == ".git"@),
    ensures
        repo_name_of(cleaned_url(base + "/"@ + name)) == name,
{
    reveal_strlit("/");
    let url = base + "/"@ + name;
    assert(url.last() == name.last());
    assert(url[0] == if base.len() == 0 { '/' } else { base[0] });
    lemma_clean_url_unchanged(url);
    lemma_repo_name_is_last_segment(base, name);
}

/// Whitespace around the URL does not change how it is used.
pub proof fn lemma_clean_url_ignores_whitespace(url: Seq<char>, c: char)
    requires
        is_white_space(c),
    ensures
        cleaned_url(seq![c] + url) == cleaned_url(url),
        cleaned_url(url + seq![c]) == cleaned_url(url),
{
    let t = url + seq![c];
    assert(t.last() == c);
    assert(t.drop_last() =~= url);
    assert(trim_end(t) == trim_end(url));
    lemma_trim_end_after_space(c, url);
    let e = trim_end(url);
    if e.len() > 0 {
        let f = seq![c] + e;
        assert(f[0] == c);
        assert(f.drop_first() =~= e);
    }
}

/// A trailing `/` does not change how a URL is used, when what comes before
/// it does not end in whitespace; so any number of trailing slashes are
/// removed.
pub proof fn lemma_clean_url_ignores_trailing_slash(url: Seq<char>)
    requires
        url.len() > 0,
        !is_white_space(url.last()),
    ensures
        cleaned_url(url + seq!['/']) == cleaned_url(url),
{
    let t = url + seq!['/'];
    assert(t.last() == '/');
    assert(!is_white_space('/'));
    assert(trim_end(t) == t);
    assert(trim_end(url) == url);
    lemma_trim_start_before_char(url, '/');
    let f = trim_start(url) + seq!['/'];
    assert(f.last() == '/');
    assert(f.drop_last() =~= trim_start(url));
}

} // verus!
