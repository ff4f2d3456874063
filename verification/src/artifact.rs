//! Artifacts fetched into a task's directory before it starts.
//!
//! An artifact names a source URL, a destination and an optional checksum.
//! The file an artifact is saved as is the last segment of the URL's path.
use crate::error::{Error, Result};
use crate::text::concat;
use vstd::prelude::*;

verus! {

/// A file to fetch into the task directory.
#[derive(Debug, Clone)]
pub struct Artifact {
    /// URL to fetch from.
    pub source: String,
    /// Destination relative to the task directory.
    pub destination: String,
    /// Checksum in `type:value` form, if any.
    pub checksum: Option<String>,
}

/// Whether `c` reads `type:value`: some `:` in it has a non-empty type
/// before it and a non-empty value after it.
pub open spec fn typed_value(c: Seq<char>) -> bool {
    exists|i: int| 0 < i < c.len() - 1 && #[trigger] c[i] == ':'
}

/// Whether some `:` of `c` has a character on each side.
fn has_inner_colon(c: &str) -> (r: bool)
    ensures
        r == typed_value(c@),
{
    let n = c.unicode_len();
    let mut i: usize = 1;
    while i < n
        invariant
            n == c@.len(),
            1 <= i,
            forall|k: int| 0 < k < i && k < c@.len() - 1 ==> #[trigger] c@[k] != ':',
        decreases n - i,
    {
        if i + 1 < n && c.get_char(i) == ':' {
            assert(0 < i < c@.len() - 1 && c@[i as int] == ':');
            return true;
        }
        i = i + 1;
    }
    false
}

/// Why an artifact is invalid, if it is.
pub open spec fn artifact_problem(a: Artifact) -> Option<Seq<char>> {
    if a.source@.len() == 0 {
        Some("artifact source cannot be empty"@)
    } else if a.checksum matches Some(c) && !typed_value(c@) {
        Some("checksum must be in type:value format"@)
    } else {
        None
    }
}

impl Artifact {
    /// Validate the artifact.
    ///
    /// # Errors
    ///
    /// Returns [`Error::Config`] if the source is empty or the checksum is
    /// not in `type:value` form.
    pub fn validate(&self) -> (r: Result<()>)
        ensures
            match artifact_problem(*self) {
                None => r is Ok,
                Some(msg) => r matches Err(e) && e.is_config(msg),
            },
    {
        if self.source.as_str().is_empty() {
            return Err(Error::Config("artifact source cannot be empty".to_string()));
        }
        match &self.checksum {
            Some(c) => {
                if !has_inner_colon(c.as_str()) {
                    return Err(Error::Config("checksum must be in type:value format".to_string()));
                }
            },
            None => {},
        }
        Ok(())
    }
}

/// What `url::Url::parse` makes of `source`: the parsed URL's path, or the
/// parse error's message.
pub uninterp spec fn url_path(source: Seq<char>) -> core::result::Result<Seq<char>, Seq<char>>;

/// The characters of a parse outcome.
pub open spec fn outcome_view(r: core::result::Result<String, String>) -> core::result::Result<Seq<char>, Seq<char>> {
    match r {
        Ok(p) => Ok(p@),
        Err(m) => Err(m@),
    }
}

/// `url::Url::parse(source)`, then the URL's `path()`; on failure the
/// `ParseError`'s display text. The result is named by [`url_path`].
#[verifier::external_body]
fn parse_url_path(source: &str) -> (r: core::result::Result<String, String>)
    ensures
        outcome_view(r) == url_path(source@),
{
    match url::Url::parse(source) {
        Ok(u) => Ok(u.path().to_string()),
        Err(e) => Err(format!("{e}")),
    }
}

/// The characters after the last `/` of `p` (all of `p` when it has none).
pub open spec fn after_last_slash(p: Seq<char>) -> Seq<char>
    decreases p.len(),
{
    if p.len() == 0 || p.last() == '/' {
        Seq::empty()
    } else {
        after_last_slash(p.drop_last()).push(p.last())
    }
}

/// The file name an artifact with URL path `p` is saved as: the path's last
/// segment when the path is hierarchical (starts with `/`) and that segment
/// is non-empty, else `artifact`.
pub open spec fn file_name_for_path(p: Seq<char>) -> Seq<char> {
    let seg = after_last_slash(p);
    if p.len() > 0 && p[0] == '/' && seg.len() > 0 && seg != "/"@ {
        seg
    } else {
        "artifact"@
    }
}

/// The file name an artifact whose URL has path `path` is saved as.
pub fn file_name_from_path(path: &str) -> (r: String)
    ensures
        r@ == file_name_for_path(path@),
{
    let n = path.unicode_len();
    let mut start: usize = n;
    assert(path@.subrange(0, n as int) =~= path@);
    assert(path@.subrange(n as int, n as int) =~= Seq::<char>::empty());
    while start > 0 && path.get_char(start - 1) != '/'
        invariant
            n == path@.len(),
            start <= n,
            after_last_slash(path@) == after_last_slash(path@.subrange(0, start as int)) + path@.subrange(
                start as int,
                n as int,
            ),
        decreases start,
    {
        let ghost p = path@.subrange(0, start as int);
        assert(p.drop_last() =~= path@.subrange(0, start - 1));
        assert(path@.subrange(start - 1, n as int) =~= seq![p.last()] + path@.subrange(start as int, n as int));
        start = start - 1;
    }
    let ghost head = path@.subrange(0, start as int);
    assert(after_last_slash(head) =~= Seq::<char>::empty()) by {
        if head.len() > 0 {
            assert(head.last() == '/');
        }
    }
    assert(after_last_slash(path@) =~= path@.subrange(start as int, n as int));
    if n > 0 && path.get_char(0) == '/' && start < n {
        let seg = path.substring_char(start, n);
        proof {
            reveal_strlit("/");
        }
        if seg.unicode_len() == 1 && seg.get_char(0) == '/' {
            return "artifact".to_string();
        }
        assert(seg@ != "/"@);
        return seg.to_string();
    }
    "artifact".to_string()
}

/// The file name an artifact is saved as, from its source URL.
///
/// # Errors
///
/// Returns [`Error::Config`] when the source is not a valid URL.
pub fn artifact_file_name(source: &str) -> (r: Result<String>)
    ensures
        match url_path(source@) {
            Ok(p) => r matches Ok(name) && name@ == file_name_for_path(p),
            Err(m) => r matches Err(e) && e.is_config("invalid artifact URL: "@ + m),
        },
{
    match parse_url_path(source) {
        Ok(p) => Ok(file_name_from_path(p.as_str())),
        Err(m) => Err(Error::Config(concat("invalid artifact URL: ", m.as_str()))),
    }
}

/// Fetches an [`Artifact`] into a task directory. Downloading is the
/// binary's work; the file it is saved as is [`artifact_file_name`].
pub trait Getter {
    /// Download `artifact` into `task_dir`.
    ///
    /// # Errors
    ///
    /// Returns an error if the fetch fails.
    fn get(&self, artifact: &Artifact, task_dir: &str) -> Result<()>;
}

} // verus!
