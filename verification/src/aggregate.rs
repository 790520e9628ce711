//! The aggregator: merges the four fetched work-item collections into one
//! deduplicated, repository-grouped view.  Scanning order (and so the
//! precedence on duplicate URLs) is: created issues, assigned issues,
//! created pull requests, assigned pull requests; the first occurrence of
//! each URL wins.  Groups are keyed by repository name, keys strictly
//! increasing in lexicographic order.

use crate::model::Issue;
use crate::text::lemma_str_lt_connected;
use crate::text::lemma_str_lt_irrefl;
use crate::text::lemma_str_lt_trans;
use crate::text::str_lt;
use crate::text::str_lt_exec;
use vstd::prelude::*;

verus! {

/// Whether some item of `s` carries the URL `url`.
pub open spec fn contains_url(s: Seq<Issue>, url: Seq<char>) -> bool {
    exists|j: int| 0 <= j < s.len() && s[j].html_url@ == url
}

/// Whether some item of `s` belongs to the repository `r`.
pub open spec fn contains_repo(s: Seq<Issue>, r: Seq<char>) -> bool {
    exists|j: int| 0 <= j < s.len() && s[j].repository@ == r
}

/// `s` with every item whose URL occurred earlier dropped: first
/// occurrences survive, in the order they first appear.
pub open spec fn dedup_by_url(s: Seq<Issue>) -> Seq<Issue>
    decreases s.len(),
{
    if s.len() == 0 {
        Seq::empty()
    } else {
        let rest = dedup_by_url(s.drop_last());
        if contains_url(s.drop_last(), s.last().html_url@) {
            rest
        } else {
            rest.push(s.last())
        }
    }
}

/// No two items of `s` share a URL.
pub open spec fn urls_distinct(s: Seq<Issue>) -> bool {
    forall|i: int, j: int| 0 <= i < j < s.len() ==> s[i].html_url@ != s[j].html_url@
}

/// `s[j]` is the first item of `s` carrying its URL.
pub open spec fn first_with_url(s: Seq<Issue>, j: int) -> bool {
    forall|j2: int| 0 <= j2 < j ==> s[j2].html_url@ != s[j].html_url@
}

/// Deduplication keeps exactly the URLs of its input.
pub proof fn lemma_dedup_membership(s: Seq<Issue>, url: Seq<char>)
    ensures
        contains_url(dedup_by_url(s), url) == contains_url(s, url),
    decreases s.len(),
{
    if s.len() == 0 {
    } else {
        let prefix = s.drop_last();
        let last = s.last();
        lemma_dedup_membership(prefix, url);
        lemma_dedup_membership(prefix, last.html_url@);
        let d = dedup_by_url(s);
        if contains_url(prefix, last.html_url@) {
            assert(d == dedup_by_url(prefix));
            if contains_url(s, url) {
                let j = choose|j: int| 0 <= j < s.len() && s[j].html_url@ == url;
                if j < s.len() - 1 {
                    assert(prefix[j].html_url@ == url);
                } else {
                    assert(url == last.html_url@);
                }
                assert(contains_url(prefix, url));
            }
            if contains_url(prefix, url) {
                let j = choose|j: int| 0 <= j < prefix.len() && prefix[j].html_url@ == url;
                assert(s[j].html_url@ == url);
            }
        } else {
            assert(d == dedup_by_url(prefix).push(last));
            if contains_url(s, url) {
                let j = choose|j: int| 0 <= j < s.len() && s[j].html_url@ == url;
                if j < s.len() - 1 {
                    assert(prefix[j].html_url@ == url);
                    assert(contains_url(dedup_by_url(prefix), url));
                    let k = choose|k: int|
                        0 <= k < dedup_by_url(prefix).len() && dedup_by_url(prefix)[k].html_url@
                            == url;
                    assert(d[k].html_url@ == url);
                } else {
                    assert(d[d.len() - 1].html_url@ == url);
                }
                assert(contains_url(d, url));
            }
            if contains_url(d, url) {
                let k = choose|k: int| 0 <= k < d.len() && d[k].html_url@ == url;
                if k < d.len() - 1 {
                    assert(dedup_by_url(prefix)[k].html_url@ == url);
                    let j = choose|j: int| 0 <= j < prefix.len() && prefix[j].html_url@ == url;
                    assert(s[j].html_url@ == url);
                } else {
                    assert(s[s.len() - 1].html_url@ == url);
                }
                assert(contains_url(s, url));
            }
        }
    }
}

/// Deduplication leaves no two items with the same URL.
pub proof fn lemma_dedup_distinct(s: Seq<Issue>)
    ensures
        urls_distinct(dedup_by_url(s)),
    decreases s.len(),
{
    if s.len() > 0 {
        let prefix = s.drop_last();
        let last = s.last();
        lemma_dedup_distinct(prefix);
        let d = dedup_by_url(s);
        if !contains_url(prefix, last.html_url@) {
            lemma_dedup_membership(prefix, last.html_url@);
            let rest = dedup_by_url(prefix);
            assert(d == rest.push(last));
            assert forall|i: int, j: int| 0 <= i < j < d.len() implies d[i].html_url@
                != d[j].html_url@ by {
                if j < d.len() - 1 {
                    assert(rest[i].html_url@ != rest[j].html_url@);
                } else {
                    assert(d[i] == rest[i]);
                    assert(contains_url(rest, rest[i].html_url@));
                }
            }
        }
    }
}

/// Every item that deduplication keeps is the first occurrence, in the
/// input, of its URL.
pub proof fn lemma_dedup_first(s: Seq<Issue>)
    ensures
        forall|i: int|
            0 <= i < dedup_by_url(s).len() ==> exists|j: int|
                0 <= j < s.len() && s[j] == #[trigger] dedup_by_url(s)[i] && first_with_url(s, j),
    decreases s.len(),
{
    if s.len() > 0 {
        let prefix = s.drop_last();
        let last = s.last();
        lemma_dedup_first(prefix);
        let d = dedup_by_url(s);
        let rest = dedup_by_url(prefix);
        assert forall|i: int| 0 <= i < d.len() implies exists|j: int|
            0 <= j < s.len() && s[j] == #[trigger] d[i] && first_with_url(s, j) by {
            if contains_url(prefix, last.html_url@) || i < d.len() - 1 {
                assert(d[i] == rest[i]);
                let j = choose|j: int|
                    0 <= j < prefix.len() && prefix[j] == rest[i] && first_with_url(prefix, j);
                assert(s[j] == d[i]);
                assert forall|j2: int| 0 <= j2 < j implies s[j2].html_url@ != s[j].html_url@ by {
                    assert(s[j2] == prefix[j2]);
                    assert(s[j] == prefix[j]);
                }
                assert(first_with_url(s, j));
            } else {
                let j = s.len() - 1;
                assert(d[i] == s[j]);
                assert forall|j2: int| 0 <= j2 < j implies s[j2].html_url@ != s[j].html_url@ by {
                    assert(prefix[j2].html_url@ == s[j2].html_url@);
                }
                assert(first_with_url(s, j));
            }
        }
    }
}

/// Whether `v` holds an item with the URL of `url`.
fn contains_url_exec(v: &Vec<Issue>, url: &String) -> (r: bool)
    ensures
        r == contains_url(v@, url@),
{
    let mut k: usize = 0;
    while k < v.len()
        invariant
            k <= v@.len(),
            forall|j: int| 0 <= j < k ==> v@[j].html_url@ != url@,
        decreases v@.len() - k,
    {
        if v[k].html_url == *url {
            assert(v@[k as int].html_url@ == url@);
            return true;
        }
        k += 1;
    }
    false
}

/// Keep the first occurrence of each URL, in order.
fn dedup_exec(all: &Vec<Issue>) -> (out: Vec<Issue>)
    ensures
        out@ == dedup_by_url(all@),
{
    let mut out: Vec<Issue> = Vec::new();
    let mut idx: usize = 0;
    proof {
        assert(all@.take(0) =~= Seq::<Issue>::empty());
    }
    while idx < all.len()
        invariant
            idx <= all@.len(),
            out@ == dedup_by_url(all@.take(idx as int)),
        decreases all@.len() - idx,
    {
        proof {
            assert(all@.take(idx + 1).drop_last() =~= all@.take(idx as int));
            assert(all@.take(idx + 1).last() == all@[idx as int]);
            lemma_dedup_membership(all@.take(idx as int), all@[idx as int].html_url@);
        }
        let item = &all[idx];
        if !contains_url_exec(&out, &item.html_url) {
            out.push(item.clone());
        }
        idx += 1;
    }
    proof {
        assert(all@.take(all@.len() as int) =~= all@);
    }
    out
}

/// The predicate selecting the items of repository `repo`.
pub open spec fn repo_pred(repo: Seq<char>) -> spec_fn(Issue) -> bool {
    |it: Issue| it.repository@ == repo
}

/// Every item a filter keeps is an item of the filtered sequence.
proof fn lemma_filter_membership(s: Seq<Issue>, pred: spec_fn(Issue) -> bool, i: int)
    requires
        0 <= i < s.filter(pred).len(),
    ensures
        exists|j: int| 0 <= j < s.len() && s[j] == s.filter(pred)[i],
    decreases s.len(),
{
    reveal(Seq::filter);
    if s.len() == 0 {
    } else {
        let prefix = s.drop_last();
        if i < prefix.filter(pred).len() {
            lemma_filter_membership(prefix, pred, i);
            let j = choose|j: int| 0 <= j < prefix.len() && prefix[j] == prefix.filter(pred)[i];
            assert(s[j] == s.filter(pred)[i]);
        } else {
            assert(s[s.len() - 1] == s.filter(pred)[i]);
        }
    }
}

/// Filtering a sequence of pairwise distinct URLs leaves them distinct.
proof fn lemma_filter_distinct(s: Seq<Issue>, pred: spec_fn(Issue) -> bool)
    requires
        urls_distinct(s),
    ensures
        urls_distinct(s.filter(pred)),
    decreases s.len(),
{
    reveal(Seq::filter);
    if s.len() > 0 {
        let prefix = s.drop_last();
        assert forall|i: int, j: int| 0 <= i < j < prefix.len() implies prefix[i].html_url@
            != prefix[j].html_url@ by {
            assert(prefix[i] == s[i]);
            assert(prefix[j] == s[j]);
        }
        lemma_filter_distinct(prefix, pred);
        if pred(s.last()) {
            let d = s.filter(pred);
            assert(d == prefix.filter(pred).push(s.last()));
            assert forall|i: int, j: int| 0 <= i < j < d.len() implies d[i].html_url@
                != d[j].html_url@ by {
                if j < d.len() - 1 {
                    assert(d[i] == prefix.filter(pred)[i]);
                    assert(d[j] == prefix.filter(pred)[j]);
                } else {
                    assert(d[i] == prefix.filter(pred)[i]);
                    lemma_filter_membership(prefix, pred, i);
                    let t = choose|t: int| 0 <= t < prefix.len() && prefix[t] == d[i];
                    assert(s[t] == d[i]);
                    assert(s[t].html_url@ != s[s.len() - 1].html_url@);
                }
            }
        }
    }
}

/// All open work items of one repository, in first-seen order.
#[derive(Debug)]
#[verifier::ext_equal]
pub struct RepoGroup {
    pub repository: String,
    pub items: Vec<Issue>,
}

/// The deduplicated, repository-grouped merge of the four fetched
/// work-item collections.
#[derive(Debug)]
#[verifier::ext_equal]
pub struct AggregatedView {
    pub groups: Vec<RepoGroup>,
}

impl AggregatedView {
    /// Well-formedness: group keys strictly increase lexicographically,
    /// no group is empty, and every item sits under its repository's key.
    pub open spec fn wf(self) -> bool {
        &&& forall|i: int, j: int|
            0 <= i < j < self.groups@.len() ==> #[trigger] str_lt(
                self.groups@[i].repository@,
                self.groups@[j].repository@,
            )
        &&& forall|k: int| 0 <= k < self.groups@.len() ==> (#[trigger] self.groups@[k]).items@.len() > 0
        &&& forall|k: int, i: int|
            0 <= k < self.groups@.len() && 0 <= i < self.groups@[k].items@.len() ==> (
            #[trigger] self.groups@[k].items@[i]).repository@ == self.groups@[k].repository@
    }
}

/// Whether the view has a group keyed `r`.
pub open spec fn view_has_repo(view: AggregatedView, r: Seq<char>) -> bool {
    exists|k: int| 0 <= k < view.groups@.len() && view.groups@[k].repository@ == r
}

/// Whether some item anywhere in the view carries the URL `url`.
pub open spec fn view_contains_url(view: AggregatedView, url: Seq<char>) -> bool {
    exists|k: int, i: int|
        0 <= k < view.groups@.len() && 0 <= i < view.groups@[k].items@.len()
            && view.groups@[k].items@[i].html_url@ == url
}

/// Everything `aggregate` promises of its result: the view is well
/// formed; each group holds exactly the items of its repository from the
/// deduplicated merge, in first-seen order; the group keys are exactly
/// the merge's repositories; no URL appears twice anywhere in the view;
/// every URL present in any input appears in the view; and every item
/// the view holds is the first item carrying its URL in the
/// precedence-ordered concatenation of the inputs.
pub open spec fn aggregate_post(
    view: AggregatedView,
    created_issues: Seq<Issue>,
    assigned_issues: Seq<Issue>,
    created_prs: Seq<Issue>,
    assigned_prs: Seq<Issue>,
) -> bool {
    let all = created_issues + assigned_issues + created_prs + assigned_prs;
    let merged = dedup_by_url(all);
    &&& view.wf()
    &&& forall|k: int|
        0 <= k < view.groups@.len() ==> (#[trigger] view.groups@[k]).items@ == merged.filter(
            repo_pred(view.groups@[k].repository@),
        )
    &&& forall|r: Seq<char>| #[trigger] view_has_repo(view, r) == contains_repo(merged, r)
    &&& forall|k1: int, i1: int, k2: int, i2: int|
        ({
            &&& 0 <= k1 < view.groups@.len()
            &&& 0 <= i1 < view.groups@[k1].items@.len()
            &&& 0 <= k2 < view.groups@.len()
            &&& 0 <= i2 < view.groups@[k2].items@.len()
            &&& (k1 != k2 || i1 != i2)
        }) ==> (#[trigger] view.groups@[k1].items@[i1]).html_url@ != (
        #[trigger] view.groups@[k2].items@[i2]).html_url@
    &&& forall|j: int|
        0 <= j < all.len() ==> view_contains_url(view, (#[trigger] all[j]).html_url@)
    &&& forall|k: int, i: int|
        0 <= k < view.groups@.len() && 0 <= i < view.groups@[k].items@.len() ==> exists|j: int|
            0 <= j < all.len() && all[j] == (#[trigger] view.groups@[k].items@[i])
                && first_with_url(all, j)
}

/// Precedence tie-break: an item whose URL occurs among the created
/// issues is kept in its created-issues version, whatever the other
/// collections hold under the same URL — the item the view holds is the
/// first created issue carrying it.
pub proof fn lemma_created_issue_precedence(
    view: AggregatedView,
    created_issues: Seq<Issue>,
    assigned_issues: Seq<Issue>,
    created_prs: Seq<Issue>,
    assigned_prs: Seq<Issue>,
    k: int,
    i: int,
)
    requires
        aggregate_post(view, created_issues, assigned_issues, created_prs, assigned_prs),
        0 <= k < view.groups@.len(),
        0 <= i < view.groups@[k].items@.len(),
        contains_url(created_issues, view.groups@[k].items@[i].html_url@),
    ensures
        exists|j: int|
            0 <= j < created_issues.len() && created_issues[j] == view.groups@[k].items@[i]
                && first_with_url(created_issues, j),
{
    let all = created_issues + assigned_issues + created_prs + assigned_prs;
    let item = view.groups@[k].items@[i];
    let j = choose|j: int| 0 <= j < all.len() && all[j] == item && first_with_url(all, j);
    let j0 = choose|j0: int|
        0 <= j0 < created_issues.len() && created_issues[j0].html_url@ == item.html_url@;
    assert(all[j0] == created_issues[j0]);
    if j >= created_issues.len() {
        assert(all[j0].html_url@ == all[j].html_url@ && j0 < j);
        assert(false);
    }
    assert(created_issues[j] == all[j]);
    assert forall|j2: int| 0 <= j2 < j implies created_issues[j2].html_url@
        != created_issues[j].html_url@ by {
        assert(all[j2] == created_issues[j2]);
    }
}

/// Whether one of the collected names reads `r`.
pub open spec fn contains_str(rs: Seq<String>, r: Seq<char>) -> bool {
    exists|k: int| 0 <= k < rs.len() && rs[k]@ == r
}

/// The names strictly increase lexicographically.
pub open spec fn strictly_sorted(rs: Seq<String>) -> bool {
    forall|i: int, j: int| 0 <= i < j < rs.len() ==> #[trigger] str_lt(rs[i]@, rs[j]@)
}

/// The first position whose name is not below `repo`.
fn lower_bound(repos: &Vec<String>, repo: &String) -> (j: usize)
    requires
        strictly_sorted(repos@),
    ensures
        j <= repos@.len(),
        forall|k: int| 0 <= k < j ==> str_lt(#[trigger] repos@[k]@, repo@),
        j < repos@.len() ==> !str_lt(repos@[j as int]@, repo@),
{
    let mut j: usize = 0;
    while j < repos.len()
        invariant
            j <= repos@.len(),
            forall|k: int| 0 <= k < j ==> str_lt(#[trigger] repos@[k]@, repo@),
        decreases repos@.len() - j,
    {
        if !str_lt_exec(repos[j].as_str(), repo.as_str()) {
            return j;
        }
        j += 1;
    }
    j
}

/// Insert `repo` into the sorted name list unless it is already there.
fn insert_repo(repos: &mut Vec<String>, repo: &String)
    requires
        strictly_sorted(old(repos)@),
    ensures
        strictly_sorted(final(repos)@),
        forall|r: Seq<char>|
            #[trigger] contains_str(final(repos)@, r) == (contains_str(old(repos)@, r) || r
                == repo@),
{
    let j = lower_bound(repos, repo);
    if j < repos.len() && repos[j] == *repo {
        proof {
            assert(repos@[j as int]@ == repo@);
            assert forall|r: Seq<char>| #[trigger] contains_str(repos@, r) == (contains_str(
                repos@,
                r,
            ) || r == repo@) by {
                if r == repo@ {
                    assert(contains_str(repos@, r));
                }
            }
        }
        return ;
    }
    proof {
        if j < repos@.len() {
            if !str_lt(repo@, repos@[j as int]@) {
                lemma_str_lt_connected(repos@[j as int]@, repo@);
                assert(false);
            }
        }
    }
    let c = repo.clone();
    repos.insert(j, c);
    proof {
        let o = old(repos)@;
        let n = repos@;
        o.insert_ensures(j as int, c);
        assert(n == o.insert(j as int, c));
        assert forall|i1: int, i2: int| 0 <= i1 < i2 < n.len() implies #[trigger] str_lt(
            n[i1]@,
            n[i2]@,
        ) by {
            if i2 < j {
                assert(n[i1] == o[i1] && n[i2] == o[i2]);
            } else if i1 < j && i2 == j {
                assert(n[i1] == o[i1] && n[i2]@ == repo@);
            } else if i1 < j && i2 > j {
                assert(n[i1] == o[i1] && n[i2] == o[i2 - 1]);
                if i1 == i2 - 1 {
                    assert(str_lt(o[i1]@, repo@) && str_lt(repo@, o[i2 - 1]@));
                    lemma_str_lt_trans(o[i1]@, repo@, o[i2 - 1]@);
                } else {
                    assert(str_lt(o[i1]@, o[i2 - 1]@));
                }
            } else if i1 == j {
                assert(n[i1]@ == repo@ && n[i2] == o[i2 - 1]);
                assert(str_lt(repo@, o[j as int]@));
                if i2 - 1 > j {
                    assert(str_lt(o[j as int]@, o[i2 - 1]@));
                    lemma_str_lt_trans(repo@, o[j as int]@, o[i2 - 1]@);
                }
            } else {
                assert(n[i1] == o[i1 - 1] && n[i2] == o[i2 - 1]);
                assert(str_lt(o[i1 - 1]@, o[i2 - 1]@));
            }
        }
        assert forall|r: Seq<char>| #[trigger] contains_str(n, r) == (contains_str(o, r) || r
            == repo@) by {
            if contains_str(n, r) {
                let k = choose|k: int| 0 <= k < n.len() && n[k]@ == r;
                if k < j {
                    assert(o[k]@ == r);
                    assert(contains_str(o, r));
                } else if k == j {
                    assert(r == repo@);
                } else {
                    assert(o[k - 1]@ == r);
                    assert(contains_str(o, r));
                }
            }
            if contains_str(o, r) {
                let k = choose|k: int| 0 <= k < o.len() && o[k]@ == r;
                if k < j {
                    assert(n[k]@ == r);
                } else {
                    assert(n[k + 1]@ == r);
                }
                assert(contains_str(n, r));
            }
            if r == repo@ {
                assert(n[j as int]@ == r);
                assert(contains_str(n, r));
            }
        }
    }
}

/// Collect the distinct repository names of `merged`, sorted.
fn collect_repos(merged: &Vec<Issue>) -> (repos: Vec<String>)
    ensures
        strictly_sorted(repos@),
        forall|r: Seq<char>| #[trigger] contains_str(repos@, r) == contains_repo(merged@, r),
{
    let mut repos: Vec<String> = Vec::new();
    let mut idx: usize = 0;
    proof {
        assert forall|r: Seq<char>| #[trigger] contains_str(repos@, r) == contains_repo(
            merged@.take(0),
            r,
        ) by {}
    }
    while idx < merged.len()
        invariant
            strictly_sorted(repos@),
            idx <= merged@.len(),
            forall|r: Seq<char>|
                #[trigger] contains_str(repos@, r) == contains_repo(merged@.take(idx as int), r),
        decreases merged@.len() - idx,
    {
        insert_repo(&mut repos, &merged[idx].repository);
        proof {
            assert forall|r: Seq<char>| #[trigger] contains_str(repos@, r) == contains_repo(
                merged@.take(idx + 1),
                r,
            ) by {
                if contains_repo(merged@.take(idx + 1), r) {
                    let t = choose|t: int|
                        0 <= t < merged@.take(idx + 1).len() && (#[trigger] merged@.take(
                            idx + 1,
                        )[t]).repository@ == r;
                    if t < idx {
                        assert(merged@.take(idx as int)[t].repository@ == r);
                        assert(contains_repo(merged@.take(idx as int), r));
                    } else {
                        assert(r == merged@[idx as int].repository@);
                    }
                    assert(contains_str(repos@, r));
                }
                if contains_str(repos@, r) {
                    if contains_repo(merged@.take(idx as int), r) {
                        let t = choose|t: int|
                            0 <= t < merged@.take(idx as int).len() && (#[trigger] merged@.take(
                                idx as int,
                            )[t]).repository@ == r;
                        assert(merged@.take(idx + 1)[t].repository@ == r);
                    } else {
                        assert(r == merged@[idx as int].repository@);
                        assert(merged@.take(idx + 1)[idx as int].repository@ == r);
                    }
                    assert(contains_repo(merged@.take(idx + 1), r));
                }
            }
        }
        idx += 1;
    }
    proof {
        assert(merged@.take(merged@.len() as int) =~= merged@);
    }
    repos
}

/// The items of `v` that belong to repository `repo`, in order.
fn filter_by_repo(v: &Vec<Issue>, repo: &String) -> (out: Vec<Issue>)
    ensures
        out@ == v@.filter(repo_pred(repo@)),
{
    let ghost pred = repo_pred(repo@);
    let mut out: Vec<Issue> = Vec::new();
    let mut idx: usize = 0;
    proof {
        reveal(Seq::filter);
        assert(v@.take(0) =~= Seq::<Issue>::empty());
        assert(v@.take(0).filter(pred) =~= Seq::<Issue>::empty());
    }
    while idx < v.len()
        invariant
            idx <= v@.len(),
            pred == repo_pred(repo@),
            out@ == v@.take(idx as int).filter(pred),
        decreases v@.len() - idx,
    {
        proof {
            reveal(Seq::filter);
            assert(v@.take(idx + 1).drop_last() =~= v@.take(idx as int));
            assert(v@.take(idx + 1).last() == v@[idx as int]);
        }
        let item = &v[idx];
        if item.repository == *repo {
            proof {
                assert(pred(v@[idx as int]));
            }
            out.push(item.clone());
        } else {
            proof {
                assert(!pred(v@[idx as int]));
            }
        }
        idx += 1;
    }
    proof {
        assert(v@.take(v@.len() as int) =~= v@);
    }
    out
}

/// Append a copy of every item of `src` to `dst`.
fn append_clones(dst: &mut Vec<Issue>, src: &Vec<Issue>)
    ensures
        final(dst)@ == old(dst)@ + src@,
{
    let mut k: usize = 0;
    proof {
        assert(old(dst)@ + src@.take(0) =~= old(dst)@);
    }
    while k < src.len()
        invariant
            k <= src@.len(),
            dst@ == old(dst)@ + src@.take(k as int),
        decreases src@.len() - k,
    {
        dst.push(src[k].clone());
        proof {
            assert(dst@ =~= old(dst)@ + src@.take(k + 1));
        }
        k += 1;
    }
    proof {
        assert(old(dst)@ + src@.take(src@.len() as int) =~= old(dst)@ + src@);
    }
}

/// A copy of an item list.
pub fn clone_items(v: &Vec<Issue>) -> (out: Vec<Issue>)
    ensures
        out@ == v@,
{
    let mut out: Vec<Issue> = Vec::new();
    append_clones(&mut out, v);
    proof {
        assert(Seq::<Issue>::empty() + v@ =~= v@);
    }
    out
}

/// Merge the four fetched collections into one deduplicated,
/// repository-grouped view.  Pure in its inputs; four empty inputs give
/// the empty view.
pub fn aggregate(
    created_issues: &Vec<Issue>,
    assigned_issues: &Vec<Issue>,
    created_prs: &Vec<Issue>,
    assigned_prs: &Vec<Issue>,
) -> (view: AggregatedView)
    ensures
        aggregate_post(view, created_issues@, assigned_issues@, created_prs@, assigned_prs@),
{
    let mut all: Vec<Issue> = Vec::new();
    append_clones(&mut all, created_issues);
    append_clones(&mut all, assigned_issues);
    append_clones(&mut all, created_prs);
    append_clones(&mut all, assigned_prs);
    proof {
        assert(all@ =~= created_issues@ + assigned_issues@ + created_prs@ + assigned_prs@);
    }
    let merged = dedup_exec(&all);
    let repos = collect_repos(&merged);
    let mut groups: Vec<RepoGroup> = Vec::new();
    let mut idx: usize = 0;
    while idx < repos.len()
        invariant
            idx <= repos@.len(),
            groups@.len() == idx,
            merged@ == dedup_by_url(all@),
            strictly_sorted(repos@),
            forall|r: Seq<char>| #[trigger] contains_str(repos@, r) == contains_repo(merged@, r),
            forall|k: int| 0 <= k < idx ==> (#[trigger] groups@[k]).repository == repos@[k],
            forall|k: int|
                0 <= k < idx ==> (#[trigger] groups@[k]).items@ == merged@.filter(
                    repo_pred(repos@[k]@),
                ),
            forall|k: int| 0 <= k < idx ==> (#[trigger] groups@[k]).items@.len() > 0,
        decreases repos@.len() - idx,
    {
        let r = repos[idx].clone();
        let items = filter_by_repo(&merged, &repos[idx]);
        proof {
            let key = repos@[idx as int]@;
            assert(contains_str(repos@, key));
            assert(contains_repo(merged@, key));
            let t = choose|t: int|
                0 <= t < merged@.len() && (#[trigger] merged@[t]).repository@ == key;
            assert(repo_pred(key)(merged@[t]));
            merged@.lemma_filter_contains(repo_pred(key), t);
            assert(merged@.filter(repo_pred(key)).contains(merged@[t]));
        }
        groups.push(RepoGroup { repository: r, items });
        idx += 1;
    }
    let view = AggregatedView { groups };
    proof {
        let ci = created_issues@;
        let ai = assigned_issues@;
        let cp = created_prs@;
        let ap = assigned_prs@;
        let allseq = ci + ai + cp + ap;
        let m = dedup_by_url(allseq);
        assert(all@ == allseq);
        assert(merged@ == m);
        let gs = view.groups@;
        lemma_dedup_distinct(allseq);
        // well-formedness
        assert forall|i: int, j: int| 0 <= i < j < gs.len() implies #[trigger] str_lt(
            gs[i].repository@,
            gs[j].repository@,
        ) by {
            assert(gs[i].repository == repos@[i]);
            assert(gs[j].repository == repos@[j]);
            assert(str_lt(repos@[i]@, repos@[j]@));
        }
        assert forall|k: int, i: int|
            0 <= k < gs.len() && 0 <= i < gs[k].items@.len() implies (
        #[trigger] gs[k].items@[i]).repository@ == gs[k].repository@ by {
            merged@.lemma_filter_pred(repo_pred(repos@[k]@), i);
        }
        assert(view.wf());
        // each group holds the filter of the merge by its own key
        assert forall|k: int| 0 <= k < gs.len() implies (#[trigger] gs[k]).items@ == m.filter(
            repo_pred(gs[k].repository@),
        ) by {
            assert(gs[k].repository@ == repos@[k]@);
        }
        // group keys are exactly the merge's repositories
        assert forall|r: Seq<char>| #[trigger] view_has_repo(view, r) == contains_repo(m, r) by {
            if view_has_repo(view, r) {
                let k = choose|k: int| 0 <= k < gs.len() && gs[k].repository@ == r;
                assert(repos@[k]@ == r);
                assert(contains_str(repos@, r));
            }
            if contains_repo(m, r) {
                assert(contains_str(repos@, r));
                let k = choose|k: int| 0 <= k < repos@.len() && repos@[k]@ == r;
                assert(gs[k].repository@ == r);
                assert(view_has_repo(view, r));
            }
        }
        // no URL appears twice anywhere in the view
        assert forall|k1: int, i1: int, k2: int, i2: int|
            ({
                &&& 0 <= k1 < gs.len()
                &&& 0 <= i1 < gs[k1].items@.len()
                &&& 0 <= k2 < gs.len()
                &&& 0 <= i2 < gs[k2].items@.len()
                &&& (k1 != k2 || i1 != i2)
            }) implies (#[trigger] gs[k1].items@[i1]).html_url@ != (
        #[trigger] gs[k2].items@[i2]).html_url@ by {
            let p1 = repo_pred(repos@[k1]@);
            let p2 = repo_pred(repos@[k2]@);
            if k1 == k2 {
                lemma_filter_distinct(m, p1);
            } else {
                lemma_filter_membership(m, p1, i1);
                lemma_filter_membership(m, p2, i2);
                let t1 = choose|t: int| 0 <= t < m.len() && m[t] == m.filter(p1)[i1];
                let t2 = choose|t: int| 0 <= t < m.len() && m[t] == m.filter(p2)[i2];
                m.lemma_filter_pred(p1, i1);
                m.lemma_filter_pred(p2, i2);
                if k1 < k2 {
                    assert(str_lt(gs[k1].repository@, gs[k2].repository@));
                    lemma_str_lt_irrefl(gs[k1].repository@);
                } else {
                    assert(str_lt(gs[k2].repository@, gs[k1].repository@));
                    lemma_str_lt_irrefl(gs[k1].repository@);
                }
                assert(gs[k1].repository@ != gs[k2].repository@);
                if m[t1].html_url@ == m[t2].html_url@ {
                    if t1 != t2 {
                        assert(m[t1].html_url@ != m[t2].html_url@);
                    }
                    assert(m[t1] == m[t2]);
                    assert(false);
                }
            }
        }
        // every input URL appears in the view
        assert forall|j: int| 0 <= j < allseq.len() implies view_contains_url(
            view,
            (#[trigger] allseq[j]).html_url@,
        ) by {
            let url = allseq[j].html_url@;
            lemma_dedup_membership(allseq, url);
            assert(contains_url(m, url));
            let t = choose|t: int| 0 <= t < m.len() && m[t].html_url@ == url;
            let key = m[t].repository@;
            assert(contains_repo(m, key));
            assert(contains_str(repos@, key));
            let k = choose|k: int| 0 <= k < repos@.len() && repos@[k]@ == key;
            assert(repo_pred(repos@[k]@)(m[t]));
            m.lemma_filter_contains(repo_pred(repos@[k]@), t);
            assert(m.filter(repo_pred(repos@[k]@)).contains(m[t]));
            let i = choose|i: int|
                0 <= i < m.filter(repo_pred(repos@[k]@)).len() && m.filter(
                    repo_pred(repos@[k]@),
                )[i] == m[t];
            assert(gs[k].items@[i].html_url@ == url);
            assert(view_contains_url(view, url));
        }
        // every item the view holds is the first occurrence of its URL
        lemma_dedup_first(allseq);
        assert forall|k: int, i: int|
            0 <= k < gs.len() && 0 <= i < gs[k].items@.len() implies exists|j: int|
            0 <= j < allseq.len() && allseq[j] == (#[trigger] gs[k].items@[i]) && first_with_url(
                allseq,
                j,
            ) by {
            let p = repo_pred(repos@[k]@);
            lemma_filter_membership(m, p, i);
            let t = choose|t: int| 0 <= t < m.len() && m[t] == m.filter(p)[i];
            assert(dedup_by_url(allseq)[t] == gs[k].items@[i]);
        }
    }
    view
}

/// The repository names of the view, in their order: strictly
/// lexicographically increasing whenever the view is well formed.
pub fn repo_list(view: &AggregatedView) -> (r: Vec<String>)
    ensures
        r@.len() == view.groups@.len(),
        forall|k: int| 0 <= k < r@.len() ==> #[trigger] r@[k] == view.groups@[k].repository,
        view.wf() ==> forall|i: int, j: int|
            0 <= i < j < r@.len() ==> #[trigger] str_lt(r@[i]@, r@[j]@),
{
    let mut r: Vec<String> = Vec::new();
    let mut idx: usize = 0;
    while idx < view.groups.len()
        invariant
            idx <= view.groups@.len(),
            r@.len() == idx,
            forall|k: int| 0 <= k < idx ==> #[trigger] r@[k] == view.groups@[k].repository,
        decreases view.groups@.len() - idx,
    {
        r.push(view.groups[idx].repository.clone());
        idx += 1;
    }
    proof {
        if view.wf() {
            assert forall|i: int, j: int| 0 <= i < j < r@.len() implies #[trigger] str_lt(
                r@[i]@,
                r@[j]@,
            ) by {
                assert(str_lt(view.groups@[i].repository@, view.groups@[j].repository@));
            }
        }
    }
    r
}

/// The items of the first group named `repo`; an absent name yields the
/// empty sequence.
pub open spec fn spec_items_for(groups: Seq<RepoGroup>, repo: Seq<char>) -> Seq<Issue>
    decreases groups.len(),
{
    if groups.len() == 0 {
        Seq::empty()
    } else if groups[0].repository@ == repo {
        groups[0].items@
    } else {
        spec_items_for(groups.skip(1), repo)
    }
}

/// The items of the repository named `repo`, in order; a name the view
/// does not hold yields the empty list, never an error.
pub fn items_for_repo(view: &AggregatedView, repo: &String) -> (out: Vec<Issue>)
    ensures
        out@ == spec_items_for(view.groups@, repo@),
        !view_has_repo(*view, repo@) ==> out@ == Seq::<Issue>::empty(),
{
    let mut k: usize = 0;
    proof {
        assert(view.groups@.skip(0) =~= view.groups@);
    }
    while k < view.groups.len()
        invariant
            k <= view.groups@.len(),
            spec_items_for(view.groups@, repo@) == spec_items_for(
                view.groups@.skip(k as int),
                repo@,
            ),
        decreases view.groups@.len() - k,
    {
        proof {
            assert(view.groups@.skip(k as int)[0] == view.groups@[k as int]);
        }
        if view.groups[k].repository == *repo {
            let mut out: Vec<Issue> = Vec::new();
            append_clones(&mut out, &view.groups[k].items);
            proof {
                assert(view.groups@[k as int].repository@ == repo@);
                assert(view_has_repo(*view, repo@));
                assert(spec_items_for(view.groups@.skip(k as int), repo@) == view.groups@[k as int].items@);
                assert(Seq::<Issue>::empty() + view.groups@[k as int].items@
                    =~= view.groups@[k as int].items@);
            }
            return out;
        }
        proof {
            assert(view.groups@.skip(k as int).skip(1) =~= view.groups@.skip(k + 1));
        }
        k += 1;
    }
    proof {
        assert(view.groups@.skip(k as int).len() == 0);
    }
    Vec::new()
}

} // verus!
