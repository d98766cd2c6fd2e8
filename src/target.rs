use vstd::prelude::*;
use crate::error::CheckError;

verus! {

/// The host and the path of an absolute URL, or `None` where the text does not
/// parse as one. The host is `None` for URLs without one.
pub uninterp spec fn url_parts(uri: Seq<char>) -> Option<(Option<Seq<char>>, Seq<char>)>;

/// Relies on `url::Url::parse`, read back through `Url::host_str` and
/// `Url::path`.
#[verifier::external_body]
fn parse_url(uri: &str) -> (r: Option<(Option<String>, String)>)
    ensures
        match r {
            None => url_parts(uri@) is None,
            Some((host, path)) => url_parts(uri@) == Some(
                (
                    match host {
                        Some(h) => Some(h@),
                        None => None::<Seq<char>>,
                    },
                    path@,
                ),
            ),
        },
{
    match url::Url::parse(uri) {
        Ok(u) => Some((u.host_str().map(|h| h.to_string()), u.path().to_string())),
        Err(_) => None,
    }
}

/// The text without its leading slashes.
pub open spec fn without_leading_slashes(s: Seq<char>) -> Seq<char>
    decreases s.len(),
{
    if s.len() > 0 && s[0] == '/' {
        without_leading_slashes(s.drop_first())
    } else {
        s
    }
}

/// The text without its trailing `.git` suffixes.
pub open spec fn without_git_suffixes(s: Seq<char>) -> Seq<char>
    decreases s.len(),
{
    if s.len() >= 4 && s.subrange(s.len() - 4, s.len() as int) == seq!['.', 'g', 'i', 't'] {
        without_git_suffixes(s.subrange(0, s.len() - 4))
    } else {
        s
    }
}

/// The project that a repository URL path names: the path without its
/// leading slashes and trailing `.git` suffixes.
pub open spec fn project_of(path: Seq<char>) -> Seq<char> {
    without_git_suffixes(without_leading_slashes(path))
}

/// Where the upstream lives: its host, and the project path on it.
pub struct Target {
    pub host: String,
    pub project: String,
}

/// Strips the leading slashes and trailing `.git` suffixes of a URL path.
pub fn project_path(path: &str) -> (r: String)
    ensures
        r@ == project_of(path@),
{
    let len = path.unicode_len();
    let ghost s = path@;
    let mut start: usize = 0;
    assert(s.subrange(0, len as int) =~= s);
    while start < len && path.get_char(start) == '/'
        invariant
            len == s.len(),
            s == path@,
            start <= len,
            without_leading_slashes(s.subrange(start as int, len as int)) == without_leading_slashes(s),
        decreases len - start,
    {
        assert(s.subrange(start as int, len as int).drop_first() =~= s.subrange(start + 1, len as int));
        start = start + 1;
    }
    assert(without_leading_slashes(s.subrange(start as int, len as int)) == s.subrange(start as int, len as int));
    let ghost lead = s.subrange(start as int, len as int);
    let mut end: usize = len;
    while end - start >= 4 && path.get_char(end - 4) == '.' && path.get_char(end - 3) == 'g'
        && path.get_char(end - 2) == 'i' && path.get_char(end - 1) == 't'
        invariant
            len == s.len(),
            s == path@,
            start <= end <= len,
            lead == s.subrange(start as int, len as int),
            without_git_suffixes(s.subrange(start as int, end as int)) == without_git_suffixes(lead),
        decreases end,
    {
        let ghost cur = s.subrange(start as int, end as int);
        assert(cur.subrange(cur.len() - 4, cur.len() as int) =~= seq!['.', 'g', 'i', 't']);
        assert(cur.subrange(0, cur.len() - 4) =~= s.subrange(start as int, end - 4));
        end = end - 4;
    }
    let ghost cur = s.subrange(start as int, end as int);
    assert(without_git_suffixes(cur) == cur) by {
        if cur.len() >= 4 && cur.subrange(cur.len() - 4, cur.len() as int) == seq!['.', 'g', 'i', 't'] {
            assert(cur.subrange(cur.len() - 4, cur.len() as int)[0] == path@[end - 4]);
            assert(cur.subrange(cur.len() - 4, cur.len() as int)[1] == path@[end - 3]);
            assert(cur.subrange(cur.len() - 4, cur.len() as int)[2] == path@[end - 2]);
            assert(cur.subrange(cur.len() - 4, cur.len() as int)[3] == path@[end - 1]);
        }
    }
    path.substring_char(start, end).to_owned()
}

/// Reads the upstream host and project path from the configured repository
/// URL; an error where the text is not an absolute URL with a host.
pub fn target_of(uri: &String) -> (r: Result<Target, CheckError>)
    ensures
        match url_parts(uri@) {
            Some((Some(host), path)) => r matches Ok(t) && t.host@ == host && t.project@ == project_of(path),
            _ => r matches Err(CheckError::InvalidUri(x)) && x@ == uri@,
        },
{
    match parse_url(uri.as_str()) {
        Some((Some(host), path)) => {
            let project = project_path(path.as_str());
            Ok(Target { host, project })
        },
        _ => Err(CheckError::InvalidUri(uri.clone())),
    }
}

} // verus!
