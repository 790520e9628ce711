//! The work-item model: immutable value types for a tracked item (issue or
//! pull request) and a notification, their display strings, and the pure
//! transform that derives a notification's public link from its API link.

use crate::text::first_slash;
use crate::text::last_slash;
use crate::text::lemma_first_slash_at;
use crate::text::lemma_last_slash_at;
use crate::text::lemma_last_slash_none;
use crate::text::matches_at;
use crate::text::scan_last_slash;
use crate::text::scan_slash;
use crate::text::slash_free;
use crate::text::starts_with;
use vstd::prelude::*;
use vstd::string::StrSliceExecFns;
use vstd::string::StringExecFns;

verus! {

/// Whether a tracked item is an issue or a pull request.
#[derive(Clone, Copy, Debug, PartialEq, Eq, Structural)]
pub enum IssueType {
    Issue,
    PullRequest,
}

impl IssueType {
    /// The short label used when the kind is shown.
    pub open spec fn spec_label(self) -> Seq<char> {
        match self {
            IssueType::Issue => "Issue"@,
            IssueType::PullRequest => "PR"@,
        }
    }

    pub fn label(&self) -> (r: &'static str)
        ensures
            r@ == self.spec_label(),
    {
        match self {
            IssueType::Issue => "Issue",
            IssueType::PullRequest => "PR",
        }
    }
}

/// A tracked work item.  Its URL is its identity: deduplication and
/// equality of interest compare nothing else.  Immutable once fetched.
#[derive(Debug, PartialEq, Eq)]
#[verifier::ext_equal]
pub struct Issue {
    pub html_url: String,
    pub title: String,
    pub repository: String,
    pub issue_type: IssueType,
}

impl Clone for Issue {
    fn clone(&self) -> (r: Self)
        ensures
            r == *self,
    {
        let r = Issue {
            html_url: self.html_url.clone(),
            title: self.title.clone(),
            repository: self.repository.clone(),
            issue_type: self.issue_type,
        };
        proof {
            assert(r =~= *self);
        }
        r
    }
}

impl Issue {
    /// The display line: `"{repository}: {title} → {html_url}"`.
    pub fn display_string(&self) -> (r: String)
        ensures
            r@ == self.repository@ + ": "@ + self.title@ + " → "@ + self.html_url@,
    {
        let mut out = self.repository.clone();
        out.append(": ");
        out.append(self.title.as_str());
        out.append(" → ");
        out.append(self.html_url.as_str());
        out
    }
}

/// What a notification is about: its title and its API links.
#[derive(Debug, PartialEq, Eq)]
#[verifier::ext_equal]
pub struct Subject {
    pub title: String,
    pub url: String,
    pub latest_comment_url: Option<String>,
}

impl Clone for Subject {
    fn clone(&self) -> (r: Self)
        ensures
            r == *self,
    {
        let r = Subject {
            title: self.title.clone(),
            url: self.url.clone(),
            latest_comment_url: match &self.latest_comment_url {
                Some(u) => Some(u.clone()),
                None => None,
            },
        };
        proof {
            assert(r =~= *self);
        }
        r
    }
}

/// A notification from the hosting service.
#[derive(Debug, PartialEq, Eq)]
#[verifier::ext_equal]
pub struct Notification {
    pub subject: Subject,
}

impl Clone for Notification {
    fn clone(&self) -> (r: Self)
        ensures
            r == *self,
    {
        let r = Notification { subject: self.subject.clone() };
        proof {
            assert(r =~= *self);
        }
        r
    }
}

/// Strip the API host-path prefix: a link of the shape
/// `https://api.{host}/repos/{rest}`, the host running up to the next
/// `/`, becomes `https://{host}/{rest}`; any other link is unchanged.
pub open spec fn strip_api_host_prefix(u: Seq<char>) -> Seq<char> {
    let p = "https://api."@;
    if starts_with(u, p) {
        let m = u.skip(p.len() as int);
        let hl = first_slash(m);
        if hl > 0 && starts_with(m.skip(hl), "/repos/"@) {
            // keep the host; drop `repos` and one of the two `/` around it
            "https://"@ + m.subrange(0, hl) + m.skip(hl + 6)
        } else {
            u
        }
    } else {
        u
    }
}

/// Put the pull-request path segment into its public singular form: a
/// link ending `/pulls/{n}` with no further `/` in `{n}` ends `/pull/{n}`
/// instead; any other link is unchanged.
pub open spec fn singular_pull_segment(u: Seq<char>) -> Seq<char> {
    let ls = last_slash(u);
    if ls >= 6 && u.subrange(ls - 6, ls + 1) == "/pulls/"@ {
        u.subrange(0, ls - 6) + "/pull/"@ + u.skip(ls + 1)
    } else {
        u
    }
}

/// The public web link derived from a notification's API link: the
/// `api.` host prefix and the `repos` path step fall away, and the
/// pull-request path segment takes its public singular form.  A pure
/// transform of the link alone, with no network dependency.
pub open spec fn spec_html_url(url: Seq<char>) -> Seq<char> {
    singular_pull_segment(strip_api_host_prefix(url))
}

fn strip_api_prefix_exec(u: &str) -> (r: String)
    ensures
        r@ == strip_api_host_prefix(u@),
{
    proof {
        reveal_strlit("https://api.");
        reveal_strlit("/repos/");
        reveal_strlit("https://");
    }
    let ulen = u.unicode_len();
    if !(12 <= ulen && matches_at(u, ulen, 0, "https://api.", 12)) {
        proof {
            assert(!starts_with(u@, "https://api."@));
        }
        return u.to_owned();
    }
    let hl = scan_slash(u, ulen, 12);
    proof {
        let m = u@.skip(12);
        assert forall|i: int| 0 <= i < hl - 12 implies m[i] != '/' by {
            assert(m[i] == u@[i + 12]);
        }
        if hl - 12 < m.len() {
            assert(m[hl - 12] == u@[hl as int]);
        }
        lemma_first_slash_at(m, hl - 12);
    }
    if 12 < hl && 7 <= ulen - hl && matches_at(u, ulen, hl, "/repos/", 7) {
        proof {
            assert(u@.skip(12).skip(hl - 12) =~= u@.skip(hl as int));
            assert(u@.skip(hl as int).subrange(0, 7) =~= u@.subrange(hl as int, hl + 7));
            assert(starts_with(u@.skip(12).skip(hl - 12), "/repos/"@));
        }
        let mut s = "https://".to_owned();
        s.append(u.substring_char(12, hl));
        s.append(u.substring_char(hl + 6, ulen));
        proof {
            assert(u@.subrange(12, hl as int) =~= u@.skip(12).subrange(0, hl - 12));
            assert(u@.subrange(hl + 6, ulen as int) =~= u@.skip(12).skip(hl - 12 + 6));
        }
        s
    } else {
        proof {
            let m = u@.skip(12);
            if first_slash(m) > 0 && starts_with(m.skip(hl - 12), "/repos/"@) {
                assert(m.skip(hl - 12) =~= u@.skip(hl as int));
                assert(7 <= ulen - hl);
                assert(u@.subrange(hl as int, hl + 7) =~= m.skip(hl - 12).subrange(0, 7));
                assert(false);
            }
        }
        u.to_owned()
    }
}

fn singular_pull_exec(u: &str) -> (r: String)
    ensures
        r@ == singular_pull_segment(u@),
{
    proof {
        reveal_strlit("/pulls/");
        reveal_strlit("/pull/");
    }
    let ulen = u.unicode_len();
    match scan_last_slash(u, ulen) {
        Some(j) => {
            proof {
                lemma_last_slash_at(u@, j as int);
            }
            if 6 <= j && matches_at(u, ulen, j - 6, "/pulls/", 7) {
                let mut s = u.substring_char(0, j - 6).to_owned();
                s.append("/pull/");
                s.append(u.substring_char(j + 1, ulen));
                proof {
                    assert(u@.skip(j + 1) =~= u@.subrange(j + 1, ulen as int));
                }
                s
            } else {
                u.to_owned()
            }
        },
        None => {
            proof {
                lemma_last_slash_none(u@);
            }
            u.to_owned()
        },
    }
}

impl Notification {
    /// The public web link this notification should open.
    pub fn html_url(&self) -> (r: String)
        ensures
            r@ == spec_html_url(self.subject.url@),
    {
        let stripped = strip_api_prefix_exec(self.subject.url.as_str());
        singular_pull_exec(stripped.as_str())
    }

    /// The display line: `"{title} → {derived link}"`.
    pub fn display_string(&self) -> (r: String)
        ensures
            r@ == self.subject.title@ + " → "@ + spec_html_url(self.subject.url@),
    {
        let mut out = self.subject.title.clone();
        out.append(" → ");
        let link = self.html_url();
        out.append(link.as_str());
        out
    }
}

/// A host or path segment: nonempty and free of `/`.
pub open spec fn seg_ok(s: Seq<char>) -> bool {
    s.len() > 0 && slash_free(s)
}

/// A well-formed API link of a tracked item:
/// `https://api.{host}/repos/{org}/{repo}/{kind}/{n}`, the four named
/// parts nonempty and free of `/`, the kind `issues` or `pulls`, and a
/// host that does not itself begin with `api.`.
pub open spec fn wf_api_url(
    host: Seq<char>,
    org: Seq<char>,
    repo: Seq<char>,
    kind: Seq<char>,
    n: Seq<char>,
) -> bool {
    &&& seg_ok(host) && !starts_with(host, "api."@)
    &&& seg_ok(org)
    &&& seg_ok(repo)
    &&& seg_ok(n)
    &&& (kind == "issues"@ || kind == "pulls"@)
}

/// The API link made of the given parts.
pub open spec fn api_url(
    host: Seq<char>,
    org: Seq<char>,
    repo: Seq<char>,
    kind: Seq<char>,
    n: Seq<char>,
) -> Seq<char> {
    "https://api."@ + host + "/repos/"@ + org + "/"@ + repo + "/"@ + kind + "/"@ + n
}

/// The kind segment as the public link spells it.
pub open spec fn public_kind(kind: Seq<char>) -> Seq<char> {
    if kind == "pulls"@ {
        "pull"@
    } else {
        kind
    }
}

/// The public link made of the given parts.
pub open spec fn public_url(
    host: Seq<char>,
    org: Seq<char>,
    repo: Seq<char>,
    kind: Seq<char>,
    n: Seq<char>,
) -> Seq<char> {
    "https://"@ + host + "/"@ + org + "/"@ + repo + "/"@ + public_kind(kind) + "/"@ + n
}

/// On a well-formed API link the derivation yields exactly the public
/// link: the host keeps its name, the `repos` step falls away, and
/// `pulls` becomes `pull`.
pub proof fn lemma_html_url_wf(
    host: Seq<char>,
    org: Seq<char>,
    repo: Seq<char>,
    kind: Seq<char>,
    n: Seq<char>,
)
    requires
        wf_api_url(host, org, repo, kind, n),
    ensures
        spec_html_url(api_url(host, org, repo, kind, n)) == public_url(host, org, repo, kind, n),
{
    reveal_strlit("https://api.");
    reveal_strlit("https://");
    reveal_strlit("/repos/");
    reveal_strlit("/");
    reveal_strlit("issues");
    reveal_strlit("pulls");
    reveal_strlit("pull");
    reveal_strlit("/pulls/");
    reveal_strlit("/pull/");
    reveal_strlit("/issues/");
    let u = api_url(host, org, repo, kind, n);
    let p = "https://api."@;
    assert(u.subrange(0, 12) =~= p);
    assert(starts_with(u, p));
    let m = u.skip(12);
    let y = "/repos/"@ + org + "/"@ + repo + "/"@ + kind + "/"@ + n;
    assert(m =~= host + y);
    assert forall|i: int| 0 <= i < host.len() implies m[i] != '/' by {
        assert(m[i] == host[i]);
    }
    assert(m[host.len() as int] == '/');
    lemma_first_slash_at(m, host.len() as int);
    let hl = first_slash(m);
    assert(hl == host.len());
    assert(m.subrange(0, hl) =~= host);
    assert(m.skip(hl) =~= y);
    assert(y.subrange(0, 7) =~= "/repos/"@);
    assert(starts_with(m.skip(hl), "/repos/"@));
    let r1 = strip_api_host_prefix(u);
    assert(r1 == "https://"@ + m.subrange(0, hl) + m.skip(hl + 6));
    let v = "https://"@ + host + "/"@ + org + "/"@ + repo;
    let w = v + "/"@ + kind;
    assert(r1 =~= w + "/"@ + n) by {
        assert(m.skip(hl + 6) =~= "/"@ + org + "/"@ + repo + "/"@ + kind + "/"@ + n);
    }
    let l = w.len() as int;
    assert(r1[l] == '/');
    assert forall|i: int| l < i < r1.len() implies r1[i] != '/' by {
        assert(r1[i] == n[i - l - 1]);
    }
    lemma_last_slash_at(r1, l);
    assert(l >= 6);
    if kind == "pulls"@ {
        assert(r1 =~= v + "/pulls/"@ + n);
        assert(l - 6 == v.len());
        assert(r1.subrange(l - 6, l + 1) =~= "/pulls/"@);
        assert(singular_pull_segment(r1) == r1.subrange(0, l - 6) + "/pull/"@ + r1.skip(l + 1));
        assert(r1.subrange(0, l - 6) =~= v);
        assert(r1.skip(l + 1) =~= n);
        assert(v + "/pull/"@ + n =~= public_url(host, org, repo, kind, n));
    } else {
        assert(kind == "issues"@);
        assert(r1 =~= v + "/issues/"@ + n);
        assert(l - 6 == v.len() + 1);
        assert(r1.subrange(l - 6, l + 1)[0] == r1[l - 6]);
        assert(r1[l - 6] == 'i');
        assert("/pulls/"@[0] == '/');
        assert(r1.subrange(l - 6, l + 1) != "/pulls/"@);
        assert(singular_pull_segment(r1) == r1);
        assert(r1 =~= public_url(host, org, repo, kind, n));
    }
}

/// A public link derived from a well-formed API link is a fixed point of
/// the derivation: deriving it again changes nothing.
pub proof fn lemma_public_url_fixed(
    host: Seq<char>,
    org: Seq<char>,
    repo: Seq<char>,
    kind: Seq<char>,
    n: Seq<char>,
)
    requires
        wf_api_url(host, org, repo, kind, n),
    ensures
        spec_html_url(public_url(host, org, repo, kind, n)) == public_url(
            host,
            org,
            repo,
            kind,
            n,
        ),
{
    reveal_strlit("https://api.");
    reveal_strlit("https://");
    reveal_strlit("api.");
    reveal_strlit("/");
    reveal_strlit("issues");
    reveal_strlit("pulls");
    reveal_strlit("pull");
    reveal_strlit("/pulls/");
    let g = public_url(host, org, repo, kind, n);
    let k2 = public_kind(kind);
    let v = "https://"@ + host + "/"@ + org + "/"@ + repo;
    let w = v + "/"@ + k2;
    assert(g =~= w + "/"@ + n);
    let tail = "/"@ + org + "/"@ + repo + "/"@ + k2 + "/"@ + n;
    assert(g.skip(8) =~= host + tail);
    assert(!starts_with(g, "https://api."@)) by {
        if starts_with(g, "https://api."@) {
            let p = "https://api."@;
            assert(g.subrange(0, 12) == p);
            if host.len() >= 4 {
                assert forall|i: int| 0 <= i < 4 implies host[i] == "api."@[i] by {
                    assert(g.skip(8)[i] == g[8 + i]);
                    assert(g.subrange(0, 12)[8 + i] == g[8 + i]);
                    assert(p[8 + i] == "api."@[i]);
                }
                assert(host.subrange(0, 4) =~= "api."@);
                assert(starts_with(host, "api."@));
                assert(false);
            } else {
                let i = host.len() as int;
                assert(g.skip(8)[i] == g[8 + i]);
                assert(g[8 + i] == tail[0]);
                assert(tail[0] == '/');
                assert(g.subrange(0, 12)[8 + i] == g[8 + i]);
                assert(p[8 + i] != '/');
                assert(false);
            }
        }
    }
    assert(strip_api_host_prefix(g) == g);
    let l = w.len() as int;
    assert(g[l] == '/');
    assert forall|i: int| l < i < g.len() implies g[i] != '/' by {
        assert(g[i] == n[i - l - 1]);
    }
    lemma_last_slash_at(g, l);
    assert(l >= 6);
    if kind == "pulls"@ {
        assert(k2 == "pull"@);
        assert(l - 6 == v.len() - 1);
        assert(g.subrange(l - 6, l + 1)[0] == g[l - 6]);
        assert(g[l - 6] == repo[repo.len() - 1]);
        assert(g[l - 6] != '/');
        assert("/pulls/"@[0] == '/');
        assert(g.subrange(l - 6, l + 1) != "/pulls/"@);
    } else {
        assert(k2 == "issues"@);
        assert(l - 6 == v.len() + 1);
        assert(g.subrange(l - 6, l + 1)[0] == g[l - 6]);
        assert(g[l - 6] == 'i');
        assert("/pulls/"@[0] == '/');
        assert(g.subrange(l - 6, l + 1) != "/pulls/"@);
    }
    assert(singular_pull_segment(g) == g);
}

/// Idempotence over well-formed links: deriving the public link of a
/// well-formed API link a second time changes nothing.
pub proof fn lemma_html_url_idempotent(
    host: Seq<char>,
    org: Seq<char>,
    repo: Seq<char>,
    kind: Seq<char>,
    n: Seq<char>,
)
    requires
        wf_api_url(host, org, repo, kind, n),
    ensures
        spec_html_url(spec_html_url(api_url(host, org, repo, kind, n))) == spec_html_url(
            api_url(host, org, repo, kind, n),
        ),
{
    lemma_html_url_wf(host, org, repo, kind, n);
    lemma_public_url_fixed(host, org, repo, kind, n);
}

/// Two slash-free heads followed by `/` and equal concatenations split
/// equally.
proof fn lemma_seg_split(a1: Seq<char>, b1: Seq<char>, a2: Seq<char>, b2: Seq<char>)
    requires
        slash_free(a1),
        slash_free(a2),
        a1 + "/"@ + b1 == a2 + "/"@ + b2,
    ensures
        a1 == a2,
        b1 == b2,
{
    reveal_strlit("/");
    let s = a1 + "/"@ + b1;
    if a1.len() < a2.len() {
        assert(s[a1.len() as int] == '/');
        assert((a2 + "/"@ + b2)[a1.len() as int] == a2[a1.len() as int]);
        assert(false);
    }
    if a2.len() < a1.len() {
        assert(s[a2.len() as int] == a1[a2.len() as int]);
        assert((a2 + "/"@ + b2)[a2.len() as int] == '/');
        assert(false);
    }
    assert forall|i: int| 0 <= i < a1.len() implies a1[i] == a2[i] by {
        assert(s[i] == a1[i]);
        assert((a2 + "/"@ + b2)[i] == a2[i]);
    }
    assert(a1 =~= a2);
    assert(("/"@).len() == 1);
    assert(s.len() == a1.len() + 1 + b1.len());
    assert((a2 + "/"@ + b2).len() == a2.len() + 1 + b2.len());
    assert(b1.len() == b2.len());
    assert forall|i: int| 0 <= i < b1.len() implies b1[i] == b2[i] by {
        assert(s[a1.len() + 1 + i] == b1[i]);
        assert((a2 + "/"@ + b2)[a2.len() + 1 + i] == b2[i]);
    }
    assert(b1 =~= b2);
}

/// Injectivity over well-formed links: two distinct well-formed API
/// links never derive to the same public link.
#[verifier::rlimit(50)]
pub proof fn lemma_html_url_injective(
    host1: Seq<char>,
    org1: Seq<char>,
    repo1: Seq<char>,
    kind1: Seq<char>,
    n1: Seq<char>,
    host2: Seq<char>,
    org2: Seq<char>,
    repo2: Seq<char>,
    kind2: Seq<char>,
    n2: Seq<char>,
)
    requires
        wf_api_url(host1, org1, repo1, kind1, n1),
        wf_api_url(host2, org2, repo2, kind2, n2),
        spec_html_url(api_url(host1, org1, repo1, kind1, n1)) == spec_html_url(
            api_url(host2, org2, repo2, kind2, n2),
        ),
    ensures
        host1 == host2,
        org1 == org2,
        repo1 == repo2,
        kind1 == kind2,
        n1 == n2,
        api_url(host1, org1, repo1, kind1, n1) == api_url(host2, org2, repo2, kind2, n2),
{
    reveal_strlit("https://");
    reveal_strlit("issues");
    reveal_strlit("pulls");
    reveal_strlit("pull");
    lemma_html_url_wf(host1, org1, repo1, kind1, n1);
    lemma_html_url_wf(host2, org2, repo2, kind2, n2);
    let g1 = public_url(host1, org1, repo1, kind1, n1);
    let g2 = public_url(host2, org2, repo2, kind2, n2);
    assert(g1 == g2);
    let d1 = public_kind(kind1) + "/"@ + n1;
    let c1 = repo1 + "/"@ + d1;
    let b1 = org1 + "/"@ + c1;
    let t1 = host1 + "/"@ + b1;
    let d2 = public_kind(kind2) + "/"@ + n2;
    let c2 = repo2 + "/"@ + d2;
    let b2 = org2 + "/"@ + c2;
    let t2 = host2 + "/"@ + b2;
    assert(g1.skip(8) =~= t1);
    assert(g2.skip(8) =~= t2);
    assert(t1 == t2);
    lemma_seg_split(host1, b1, host2, b2);
    lemma_seg_split(org1, c1, org2, c2);
    lemma_seg_split(repo1, d1, repo2, d2);
    assert(slash_free(public_kind(kind1)));
    assert(slash_free(public_kind(kind2)));
    lemma_seg_split(public_kind(kind1), n1, public_kind(kind2), n2);
    if kind1 != kind2 {
        assert(public_kind(kind1).len() != public_kind(kind2).len());
        assert(false);
    }
    assert(api_url(host1, org1, repo1, kind1, n1) =~= api_url(host2, org2, repo2, kind2, n2));
}

} // verus!
