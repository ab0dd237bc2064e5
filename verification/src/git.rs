//! Repository identities: a canonical URL plus an optional branch, parsed
//! from a raw `url` or `url:branch` string, and the short name derived
//! from the URL's last path segment (with a `.git` suffix stripped) that
//! keys the supervisor's map and the working directory on disk.

use vstd::prelude::*;

use crate::errors::CampaignError;
use crate::text::{
    char_count, count_occ, find_char, first_occ, last_segment_start, lemma_count_occ_bounds,
    lemma_count_occ_concat, lemma_count_occ_split, lemma_count_occ_zero, lemma_first_occ_is,
    lemma_first_occ_props, lemma_seg_start_concat, lemma_seg_start_props, match_at, matches_at,
    seg_start,
};

verus! {

/// A raw identity string is accepted when it holds one colon (the URL
/// scheme's) or two (scheme plus branch separator).
pub open spec fn wellformed_url(s: Seq<char>) -> bool {
    count_occ(s, ':') == 1 || count_occ(s, ':') == 2
}

/// Index of the second occurrence of `c` in `s` (meaningful when `s`
/// holds at least two).
pub open spec fn second_occ(s: Seq<char>, c: char) -> int {
    let p1 = first_occ(s, c);
    p1 + 1 + first_occ(s.subrange(p1 + 1, s.len() as int), c)
}

/// The canonical URL of a raw identity string: everything before the
/// second colon when a branch is attached, the whole string otherwise.
pub open spec fn url_of(s: Seq<char>) -> Seq<char> {
    if count_occ(s, ':') == 2 {
        s.take(second_occ(s, ':'))
    } else {
        s
    }
}

/// The last `/`-separated segment of `s`.
pub open spec fn last_segment(s: Seq<char>) -> Seq<char> {
    s.subrange(seg_start(s), s.len() as int)
}

/// The branch of a raw identity string: within the last path segment, the
/// text between the first colon and the next colon (or the end); `None`
/// when the last segment holds no colon.
pub open spec fn branch_of(s: Seq<char>) -> Option<Seq<char>> {
    let seg = last_segment(s);
    if first_occ(seg, ':') < seg.len() {
        let rest = seg.subrange(first_occ(seg, ':') + 1, seg.len() as int);
        Some(rest.take(first_occ(rest, ':')))
    } else {
        None
    }
}

/// The short name derived from a canonical URL: its last path segment,
/// with a trailing `.git` suffix stripped.  A `.git` anywhere else (as in
/// a `foo.github.io` repository) belongs to the name and stays.
pub open spec fn dir_of(s: Seq<char>) -> Seq<char> {
    let seg = last_segment(s);
    if seg.len() >= 4 && seg.subrange(seg.len() - 4, seg.len() as int) == ".git"@ {
        seg.take(seg.len() - 4)
    } else {
        seg
    }
}

/// The mathematical value of a [`GitRepo`].
#[verifier::ext_equal]
pub struct RepoIdView {
    pub url: Seq<char>,
    pub branch: Option<Seq<char>>,
}

/// A git repository identity: canonical URL and optional branch.
/// Two identities are the same repository exactly when both fields agree.
#[derive(Debug)]
pub struct GitRepo {
    url: String,
    branch: Option<String>,
}

impl View for GitRepo {
    type V = RepoIdView;

    closed spec fn view(&self) -> RepoIdView {
        RepoIdView { url: self.url@, branch: self.branch.deep_view() }
    }
}

/// Extracts the directory (short) name from a canonical URL: the last
/// path segment, with a trailing `.git` suffix stripped.
pub fn extract_dir_from_url(url: &str) -> (r: Result<String, CampaignError>)
    ensures
        r is Ok,
        r matches Ok(d) ==> d@ == dir_of(url@),
{
    let n = url.unicode_len();
    let start = last_segment_start(url);
    let seg = url.substring_char(start, n);
    let sl = seg.unicode_len();
    proof {
        reveal_strlit(".git");
    }
    if sl >= 4 && match_at(seg, ".git", sl - 4) {
        let d = seg.substring_char(0, sl - 4);
        proof {
            assert(seg@.subrange(0, sl - 4) =~= seg@.take(sl - 4));
        }
        Ok(String::from_str(d))
    } else {
        proof {
            if sl >= 4 && seg@.subrange(sl - 4, sl as int) == ".git"@ {
                assert(matches_at(seg@, ".git"@, sl - 4));
            }
        }
        Ok(String::from_str(seg))
    }
}

/// Extracts the branch from a raw identity string: the text of the last
/// path segment between its first colon and the next colon or the end.
pub fn extract_branch_from_url(url: &str) -> (r: Result<Option<String>, CampaignError>)
    ensures
        r is Ok,
        r matches Ok(b) ==> b.deep_view() == branch_of(url@),
{
    let n = url.unicode_len();
    let start = last_segment_start(url);
    let seg = url.substring_char(start, n);
    let sl = seg.unicode_len();
    let p1 = find_char(seg, ':');
    if p1 < sl {
        let rest = seg.substring_char(p1 + 1, sl);
        let p2 = find_char(rest, ':');
        let b = rest.substring_char(0, p2);
        proof {
            assert(rest@.subrange(0, p2 as int) =~= rest@.take(p2 as int));
        }
        Ok(Some(String::from_str(b)))
    } else {
        Ok(None)
    }
}

/// Extracts the canonical URL from a raw identity string: the part before
/// the second colon when the string holds two colons, the whole string
/// when it holds one, and `MalformedUrl` otherwise.
pub fn extract_url_without_branch(url: &str) -> (r: Result<String, CampaignError>)
    ensures
        r is Ok <==> wellformed_url(url@),
        r matches Ok(u) ==> u@ == url_of(url@),
        r matches Err(e) ==> e is MalformedUrl,
{
    let cc = char_count(url, ':');
    if cc == 2 {
        let n = url.unicode_len();
        let p1 = find_char(url, ':');
        proof {
            lemma_first_occ_props(url@, ':');
            if p1 == n {
                lemma_count_occ_zero(url@, ':');
            }
        }
        let rest = url.substring_char(p1 + 1, n);
        let q = find_char(rest, ':');
        let u = url.substring_char(0, p1 + 1 + q);
        proof {
            assert(url@.subrange(0, p1 + 1 + q) =~= url@.take(second_occ(url@, ':')));
        }
        Ok(String::from_str(u))
    } else if cc == 1 {
        Ok(String::from_str(url))
    } else {
        Err(CampaignError::MalformedUrl)
    }
}

impl GitRepo {
    /// Builds the identity of a raw `url` or `url:branch` string whose
    /// colon count has already been checked (see [`GitRepo::parse`]).
    pub fn new(url: String) -> (r: Self)
        requires
            wellformed_url(url@),
        ensures
            r@.url == url_of(url@),
            r@.branch == branch_of(url@),
    {
        let u = match extract_url_without_branch(url.as_str()) {
            Ok(u) => u,
            Err(_) => {
                proof {
                    assert(false);
                }
                String::new()
            },
        };
        let b = match extract_branch_from_url(url.as_str()) {
            Ok(b) => b,
            Err(_) => {
                proof {
                    assert(false);
                }
                None
            },
        };
        GitRepo { url: u, branch: b }
    }

    /// Parses a raw `url` or `url:branch` string, rejecting with
    /// `MalformedUrl` exactly the strings whose colon count is neither
    /// one nor two.
    pub fn parse(url: &str) -> (r: Result<Self, CampaignError>)
        ensures
            r is Ok <==> wellformed_url(url@),
            r matches Ok(g) ==> g@.url == url_of(url@) && g@.branch == branch_of(url@),
            r matches Err(e) ==> e is MalformedUrl,
    {
        match extract_url_without_branch(url) {
            Ok(u) => {
                let b = match extract_branch_from_url(url) {
                    Ok(b) => b,
                    Err(_) => {
                        proof {
                            assert(false);
                        }
                        None
                    },
                };
                Ok(GitRepo { url: u, branch: b })
            },
            Err(_) => Err(CampaignError::MalformedUrl),
        }
    }

    /// The short name: the URL's last path segment with `.git` stripped,
    /// used as the supervisor's key and the checkout directory name.
    pub fn name(&self) -> (r: String)
        ensures
            r@ == dir_of(self@.url),
    {
        match extract_dir_from_url(self.url.as_str()) {
            Ok(d) => d,
            Err(_) => {
                proof {
                    assert(false);
                }
                String::new()
            },
        }
    }

    /// The canonical URL.
    pub fn url(&self) -> (r: String)
        ensures
            r@ == self@.url,
    {
        self.url.clone()
    }

    /// The branch, if one was given.
    pub fn branch(&self) -> (r: Option<String>)
        ensures
            r.deep_view() == self@.branch,
    {
        match &self.branch {
            Some(b) => Some(b.clone()),
            None => None,
        }
    }

    /// Decides identity equality: same canonical URL and same branch.
    pub fn same_identity(&self, other: &GitRepo) -> (r: bool)
        ensures
            r == (self@ == other@),
    {
        let urls_eq = self.url == other.url;
        let branches_eq = match (&self.branch, &other.branch) {
            (Some(a), Some(b)) => *a == *b,
            (None, None) => true,
            _ => false,
        };
        proof {
            if urls_eq && branches_eq {
                assert(self@.branch == other@.branch);
                assert(self@ =~= other@);
            }
        }
        urls_eq && branches_eq
    }
}

/// The persisted record of an identity: `url`, or `url:branch` when a
/// branch is tracked.
pub open spec fn line_of(v: RepoIdView) -> Seq<char> {
    match v.branch {
        Some(b) => v.url + ":"@ + b,
        None => v.url,
    }
}

impl GitRepo {
    /// Encodes the identity as its persisted record.
    pub fn repo_line(&self) -> (r: String)
        ensures
            r@ == line_of(self@),
    {
        match &self.branch {
            Some(b) => {
                let mut s = self.url.clone();
                s.append(":");
                s.append(b.as_str());
                proof {
                    assert(s@ =~= self@.url + ":"@ + b@);
                }
                s
            },
            None => self.url.clone(),
        }
    }
}

/// An identity whose persisted record parses back to itself: the URL
/// holds exactly its scheme colon, that colon sits before the last `/`,
/// and the branch (if any) holds neither colon nor slash.  Every ordinary
/// `scheme://host/path` identity is of this shape; an identity whose URL
/// carries a colon in its last path segment is not, and its record
/// re-parses with a different branch.
pub open spec fn stable_identity(v: RepoIdView) -> bool {
    &&& count_occ(v.url, ':') == 1
    &&& count_occ(last_segment(v.url), ':') == 0
    &&& match v.branch {
        Some(b) => count_occ(b, ':') == 0 && count_occ(b, '/') == 0,
        None => true,
    }
}

/// A count of one means the first occurrence is a real one.
proof fn lemma_one_occ(s: Seq<char>, c: char)
    requires
        count_occ(s, c) >= 1,
    ensures
        first_occ(s, c) < s.len(),
        s[first_occ(s, c)] == c,
        forall|j: int| first_occ(s, c) < j < s.len() && count_occ(s, c) == 1 ==> s[j] != c,
{
    lemma_first_occ_props(s, c);
    let q = first_occ(s, c);
    if q == s.len() {
        lemma_count_occ_zero(s, c);
    }
    if count_occ(s, c) == 1 {
        lemma_count_occ_split(s, c, q + 1);
        lemma_count_occ_split(s.take(q + 1), c, q);
        assert(s.take(q + 1).subrange(q, q + 1)[0] == s[q]);
        lemma_count_occ_zero(s.take(q + 1).subrange(q, q + 1), c);
        assert(count_occ(s.take(q + 1).subrange(q, q + 1), c) != 0);
        lemma_count_occ_bounds(s.take(q + 1).take(q), c);
        lemma_count_occ_bounds(s.take(q + 1).subrange(q, q + 1), c);
        lemma_count_occ_bounds(s.subrange(q + 1, s.len() as int), c);
        assert(count_occ(s.subrange(q + 1, s.len() as int), c) == 0);
        lemma_count_occ_zero(s.subrange(q + 1, s.len() as int), c);
        assert forall|j: int| q < j < s.len() implies s[j] != c by {
            assert(s.subrange(q + 1, s.len() as int)[j - q - 1] == s[j]);
        }
    }
}

/// Round trip of one record: the persisted record of a stable identity is
/// well-formed and parses back to the same canonical URL and branch.
pub proof fn lemma_line_round_trip(v: RepoIdView)
    requires
        stable_identity(v),
    ensures
        wellformed_url(line_of(v)),
        url_of(line_of(v)) == v.url,
        branch_of(line_of(v)) == v.branch,
{
    reveal_strlit(":");
    let u = v.url;
    let colon = ":"@;
    assert(colon.len() == 1 && colon[0] == ':');
    assert(colon.drop_last() =~= Seq::<char>::empty());
    assert(colon.last() == ':');
    assert(count_occ(Seq::<char>::empty(), ':') == 0);
    assert(count_occ(colon, ':') == count_occ(colon.drop_last(), ':') + 1);
    assert(count_occ(colon, ':') == 1);
    lemma_count_occ_zero(colon, '/');
    match v.branch {
        None => {
            assert(line_of(v) == u);
            let seg = last_segment(u);
            lemma_count_occ_zero(seg, ':');
            lemma_first_occ_is(seg, ':', seg.len() as int);
        },
        Some(b) => {
            let line = line_of(v);
            assert(line == u + colon + b);
            // Colon count: 1 (in the URL) + 1 (the separator) + 0 (in the branch).
            lemma_count_occ_concat(u + colon, b, ':');
            lemma_count_occ_concat(u, colon, ':');
            assert(count_occ(line, ':') == 2);
            // The first colon of the record is the URL's own.
            let q = first_occ(u, ':');
            lemma_one_occ(u, ':');
            lemma_first_occ_props(u, ':');
            assert forall|j: int| 0 <= j < q implies line[j] != ':' by {
                assert(line[j] == u[j]);
            }
            assert(line[q] == u[q]);
            lemma_first_occ_is(line, ':', q);
            // The second colon of the record is the separator.
            let suffix = line.subrange(q + 1, line.len() as int);
            let i0 = u.len() - q - 1;
            assert(suffix[i0 as int] == line[u.len() as int]);
            assert(line[u.len() as int] == colon[0]);
            assert forall|j: int| 0 <= j < i0 implies suffix[j] != ':' by {
                assert(suffix[j] == line[q + 1 + j]);
                assert(line[q + 1 + j] == u[q + 1 + j]);
            }
            lemma_first_occ_is(suffix, ':', i0 as int);
            assert(second_occ(line, ':') == u.len());
            assert(line.take(u.len() as int) =~= u);
            assert(url_of(line) == u);
            // The last segment of the record is the URL's, plus `:branch`.
            lemma_count_occ_concat(colon, b, '/');
            assert(line =~= u + (colon + b));
            lemma_seg_start_concat(u, colon + b);
            let st = seg_start(u);
            let sg = last_segment(u);
            lemma_seg_start_props(u);
            let seg2 = line.subrange(seg_start(line), line.len() as int);
            assert(seg2 =~= sg + colon + b);
            // Its first colon is the separator; the branch follows it.
            lemma_count_occ_zero(sg, ':');
            assert forall|j: int| 0 <= j < sg.len() implies seg2[j] != ':' by {
                assert(seg2[j] == sg[j]);
            }
            assert(seg2[sg.len() as int] == colon[0]);
            lemma_first_occ_is(seg2, ':', sg.len() as int);
            let rest = seg2.subrange(first_occ(seg2, ':') + 1, seg2.len() as int);
            assert(rest =~= b);
            lemma_count_occ_zero(b, ':');
            lemma_first_occ_is(b, ':', b.len() as int);
            assert(rest.take(first_occ(rest, ':')) =~= b);
            assert(branch_of(line) == Some(b));
        },
    }
}

impl Clone for GitRepo {
    /// A clone is the same identity.
    fn clone(&self) -> (r: Self)
        ensures
            r@ == self@,
    {
        GitRepo {
            url: self.url.clone(),
            branch: match &self.branch {
                Some(b) => Some(b.clone()),
                None => None,
            },
        }
    }
}

} // verus!
