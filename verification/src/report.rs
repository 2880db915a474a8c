//! The reports of all repositories, grouped by tracking branch, and the lines
//! that show them.

use vstd::prelude::*;
use vstd::utf8::*;
use vstd::string::*;
use crate::order::{
    bytes_le, lemma_lex_antisymmetric, lemma_lex_reflexive, lemma_lex_total,
    lemma_lex_transitive, lex_le, sort_by_name, stably_sorted,
};
use crate::project::ProjectInfo;
use crate::text::{bytes_eq, utf8};

verus! {

broadcast use {encode_utf8_decode_utf8};

/// The reports of the repositories that track one branch.
pub struct Group {
    pub tracking_branch: String,
    pub projects: Vec<ProjectInfo>,
}

/// The UTF-8 bytes of the branch a report's repository tracks.
pub open spec fn tracking_key(p: ProjectInfo) -> Seq<u8> {
    utf8(p.repo_status.tracking_branch@)
}

/// Holds of the reports whose repository tracks the branch with bytes `k`.
pub open spec fn tracks(k: Seq<u8>) -> spec_fn(ProjectInfo) -> bool {
    |p: ProjectInfo| tracking_key(p) == k
}

/// The groups are keyed by distinct tracking branches in increasing order.
pub open spec fn keys_increasing(g: Seq<Group>) -> bool {
    forall|a: int, b: int| 0 <= a < b < g.len() ==> lex_le(utf8(#[trigger] g[a].tracking_branch@), utf8(#[trigger] g[b].tracking_branch@)) && utf8(g[a].tracking_branch@) != utf8(g[b].tracking_branch@)
}

/// `groups` is `infos` grouped as a map from tracking branch to reports
/// iterates them: one group per tracking branch that occurs, in increasing
/// order of the branch, each holding the reports with that branch sorted
/// by repository name (reports with equal names in their order in `infos`).
pub open spec fn grouped(infos: Seq<ProjectInfo>, groups: Seq<Group>) -> bool {
    &&& keys_increasing(groups)
    &&& forall|a: int| 0 <= a < groups.len() ==> stably_sorted(
        infos.filter(tracks(utf8(#[trigger] groups[a].tracking_branch@))),
        groups[a].projects@,
    )
    &&& forall|a: int| 0 <= a < groups.len() ==> (#[trigger] groups[a].projects@).len() > 0
    &&& forall|i: int| 0 <= i < infos.len() ==> has_group(groups, tracking_key(#[trigger] infos[i]))
}

/// Some group is keyed by the tracking branch with bytes `k`.
pub open spec fn has_group(groups: Seq<Group>, k: Seq<u8>) -> bool {
    exists|a: int| 0 <= a < groups.len() && utf8(#[trigger] groups[a].tracking_branch@) == k
}

/// Filtering after one more item.
proof fn lemma_filter_push<T>(s: Seq<T>, x: T, p: spec_fn(T) -> bool)
    ensures
        s.push(x).filter(p) == if p(x) {
            s.filter(p).push(x)
        } else {
            s.filter(p)
        },
{
    reveal_with_fuel(Seq::filter, 1);
    assert(s.push(x).drop_last() =~= s);
}

/// Nothing passes a filter that no item satisfies.
proof fn lemma_filter_none<T>(s: Seq<T>, p: spec_fn(T) -> bool)
    requires
        forall|i: int| 0 <= i < s.len() ==> !p(#[trigger] s[i]),
    ensures
        s.filter(p) == Seq::<T>::empty(),
    decreases s.len(),
{
    reveal_with_fuel(Seq::filter, 1);
    if s.len() > 0 {
        assert forall|i: int| 0 <= i < s.drop_last().len() implies !p(#[trigger] s.drop_last()[i]) by {
            assert(s.drop_last()[i] == s[i]);
        }
        lemma_filter_none(s.drop_last(), p);
        assert(!p(s[s.len() - 1]));
    }
    assert(s.filter(p) =~= Seq::<T>::empty());
}

/// Whether two strings hold the same bytes.
fn same_text(a: &String, b: &String) -> (r: bool)
    ensures
        r == (utf8(a@) == utf8(b@)),
{
    bytes_eq(a.as_str().as_bytes(), b.as_str().as_bytes())
}

/// The reports grouped by the branch their repository tracks, as a map from
/// tracking branch to reports would give them, each group sorted by name.
pub fn group_by_tracking(infos: Vec<ProjectInfo>) -> (r: Vec<Group>)
    ensures
        grouped(infos@, r@),
{
    let ghost orig = infos@;
    let mut rest = infos;
    let mut groups: Vec<Group> = Vec::new();
    let ghost mut i: int = 0;
    while rest.len() > 0
        invariant
            0 <= i <= orig.len(),
            rest@ == orig.skip(i),
            keys_increasing(groups@),
            forall|a: int| 0 <= a < groups@.len() ==> (#[trigger] groups@[a]).projects@ == orig.take(i).filter(
                tracks(utf8(groups@[a].tracking_branch@)),
            ),
            forall|a: int| 0 <= a < groups@.len() ==> (#[trigger] groups@[a].projects@).len() > 0,
            forall|m: int| 0 <= m < i ==> exists|a: int| 0 <= a < groups@.len() && utf8(#[trigger] groups@[a].tracking_branch@) == tracking_key(#[trigger] orig[m]),
        decreases rest@.len(),
    {
        let x = rest.remove(0);
        assert(x == orig[i]);
        let ghost kx = tracking_key(x);
        let mut j: usize = 0;
        while j < groups.len()
            invariant
                j <= groups@.len(),
                kx == tracking_key(x),
                forall|m: int| 0 <= m < j ==> lex_le(utf8(#[trigger] groups@[m].tracking_branch@), kx) && utf8(groups@[m].tracking_branch@) != kx,
            ensures
                j <= groups@.len(),
                forall|m: int| 0 <= m < j ==> lex_le(utf8(#[trigger] groups@[m].tracking_branch@), kx) && utf8(groups@[m].tracking_branch@) != kx,
                j < groups@.len() ==> lex_le(kx, utf8(groups@[j as int].tracking_branch@)),
            decreases groups@.len() - j,
        {
            if bytes_le(x.repo_status.tracking_branch.as_str().as_bytes(), groups[j].tracking_branch.as_str().as_bytes()) {
                break;
            }
            proof {
                lemma_lex_total(kx, utf8(groups@[j as int].tracking_branch@));
                lemma_lex_reflexive(kx);
            }
            j += 1;
        }
        let ghost done = orig.take(i);
        assert(orig.take(i + 1) =~= done.push(x));
        let ghost before = groups@;
        if j < groups.len() && same_text(&groups[j].tracking_branch, &x.repo_status.tracking_branch) {
            let mut g = groups.remove(j);
            g.projects.push(x);
            groups.insert(j, g);
            proof {
                assert(groups@ =~= before.update(j as int, g));
                assert forall|a: int| 0 <= a < groups@.len() implies (#[trigger] groups@[a]).projects@ == orig.take(i + 1).filter(
                    tracks(utf8(groups@[a].tracking_branch@)),
                ) by {
                    lemma_filter_push(done, x, tracks(utf8(groups@[a].tracking_branch@)));
                    if a != j {
                        assert(utf8(before[a].tracking_branch@) != kx);
                    }
                }
                assert forall|m: int| 0 <= m < i + 1 implies exists|a: int| 0 <= a < groups@.len() && utf8(#[trigger] groups@[a].tracking_branch@) == tracking_key(#[trigger] orig[m]) by {
                    if m < i {
                        let a = choose|a: int| 0 <= a < before.len() && utf8(#[trigger] before[a].tracking_branch@) == tracking_key(orig[m]);
                        assert(groups@[a].tracking_branch == before[a].tracking_branch);
                    } else {
                        assert(utf8(groups@[j as int].tracking_branch@) == tracking_key(orig[m]));
                    }
                }
            }
        } else {
            let mut projects: Vec<ProjectInfo> = Vec::new();
            let key = x.repo_status.tracking_branch.clone();
            projects.push(x);
            let g = Group { tracking_branch: key, projects };
            groups.insert(j, g);
            proof {
                assert(groups@ =~= before.insert(j as int, g));
                assert forall|m: int| j <= m < before.len() implies lex_le(kx, utf8(#[trigger] before[m].tracking_branch@)) && utf8(before[m].tracking_branch@) != kx by {
                    if m > j {
                        lemma_lex_transitive(kx, utf8(before[j as int].tracking_branch@), utf8(before[m].tracking_branch@));
                        if utf8(before[m].tracking_branch@) == kx {
                            lemma_lex_antisymmetric(kx, utf8(before[j as int].tracking_branch@));
                        }
                    }
                }
                assert(keys_increasing(groups@)) by {
                    assert forall|a: int, b: int| 0 <= a < b < groups@.len() implies lex_le(utf8(#[trigger] groups@[a].tracking_branch@), utf8(#[trigger] groups@[b].tracking_branch@)) && utf8(groups@[a].tracking_branch@) != utf8(groups@[b].tracking_branch@) by {
                        if a < j && b > j {
                            lemma_lex_transitive(utf8(groups@[a].tracking_branch@), kx, utf8(groups@[b].tracking_branch@));
                            if utf8(groups@[a].tracking_branch@) == utf8(groups@[b].tracking_branch@) {
                                lemma_lex_antisymmetric(kx, utf8(groups@[a].tracking_branch@));
                            }
                        }
                    }
                }
                assert forall|m: int| 0 <= m < done.len() implies !tracks(kx)(#[trigger] done[m]) by {
                    let a = choose|a: int| 0 <= a < before.len() && utf8(#[trigger] before[a].tracking_branch@) == tracking_key(orig[m]);
                    assert(done[m] == orig[m]);
                }
                lemma_filter_none(done, tracks(kx));
                assert forall|a: int| 0 <= a < groups@.len() implies (#[trigger] groups@[a]).projects@ == orig.take(i + 1).filter(
                    tracks(utf8(groups@[a].tracking_branch@)),
                ) by {
                    lemma_filter_push(done, x, tracks(utf8(groups@[a].tracking_branch@)));
                    if a == j {
                        assert(groups@[a].projects@ =~= seq![x]);
                        assert(seq![x] =~= Seq::<ProjectInfo>::empty().push(x));
                    } else if a < j {
                        assert(groups@[a] == before[a]);
                    } else {
                        assert(groups@[a] == before[a - 1]);
                    }
                }
                assert forall|a: int| 0 <= a < groups@.len() implies (#[trigger] groups@[a].projects@).len() > 0 by {
                    if a < j {
                        assert(groups@[a] == before[a]);
                    } else if a > j {
                        assert(groups@[a] == before[a - 1]);
                    }
                }
                assert forall|m: int| 0 <= m < i + 1 implies exists|a: int| 0 <= a < groups@.len() && utf8(#[trigger] groups@[a].tracking_branch@) == tracking_key(#[trigger] orig[m]) by {
                    if m < i {
                        let a = choose|a: int| 0 <= a < before.len() && utf8(#[trigger] before[a].tracking_branch@) == tracking_key(orig[m]);
                        if a < j {
                            assert(groups@[a] == before[a]);
                        } else {
                            assert(groups@[a + 1] == before[a]);
                        }
                    } else {
                        assert(utf8(groups@[j as int].tracking_branch@) == tracking_key(orig[m]));
                    }
                }
            }
        }
        proof {
            i = i + 1;
            assert(rest@ =~= orig.skip(i));
        }
    }
    proof {
        assert(orig.take(i) =~= orig);
    }
    let ghost unsorted = groups@;
    let mut sorted: Vec<Group> = Vec::new();
    while groups.len() > 0
        invariant
            sorted@.len() + groups@.len() == unsorted.len(),
            groups@ == unsorted.skip(sorted@.len() as int),
            forall|a: int| 0 <= a < sorted@.len() ==> (#[trigger] sorted@[a]).tracking_branch == unsorted[a].tracking_branch,
            forall|a: int| 0 <= a < sorted@.len() ==> stably_sorted(unsorted[a].projects@, (#[trigger] sorted@[a]).projects@),
        decreases groups@.len(),
    {
        let g = groups.remove(0);
        assert(g == unsorted[sorted@.len() as int]);
        let projects = sort_by_name(g.projects);
        sorted.push(Group { tracking_branch: g.tracking_branch, projects });
        assert(groups@ =~= unsorted.skip(sorted@.len() as int));
    }
    proof {
        assert forall|a: int, b: int| 0 <= a < b < sorted@.len() implies lex_le(utf8(#[trigger] sorted@[a].tracking_branch@), utf8(#[trigger] sorted@[b].tracking_branch@)) && utf8(sorted@[a].tracking_branch@) != utf8(sorted@[b].tracking_branch@) by {
            assert(sorted@[a].tracking_branch == unsorted[a].tracking_branch);
            assert(sorted@[b].tracking_branch == unsorted[b].tracking_branch);
        }
        assert forall|a: int| 0 <= a < sorted@.len() implies stably_sorted(
            orig.filter(tracks(utf8(#[trigger] sorted@[a].tracking_branch@))),
            sorted@[a].projects@,
        ) by {
            assert(sorted@[a].tracking_branch == unsorted[a].tracking_branch);
            assert(unsorted[a].projects@ == orig.take(orig.len() as int).filter(tracks(utf8(unsorted[a].tracking_branch@))));
        }
        assert forall|a: int| 0 <= a < sorted@.len() implies (#[trigger] sorted@[a].projects@).len() > 0 by {
            crate::order::lemma_stably_sorted_nonempty(unsorted[a].projects@, sorted@[a].projects@);
        }
        assert forall|m: int| 0 <= m < infos@.len() implies has_group(sorted@, tracking_key(#[trigger] infos@[m])) by {
            assert(infos@[m] == orig[m]);
            let a = choose|a: int| 0 <= a < unsorted.len() && utf8(#[trigger] unsorted[a].tracking_branch@) == tracking_key(orig[m]);
            assert(sorted@[a].tracking_branch == unsorted[a].tracking_branch);
            assert(0 <= a < sorted@.len() && utf8(sorted@[a].tracking_branch@) == tracking_key(orig[m]));
        }
        assert(orig == infos@);
    }
    sorted
}

/// The reports among the results of all repositories, in order.
pub open spec fn reported(rs: Seq<(Option<ProjectInfo>, Option<String>)>) -> Seq<ProjectInfo>
    decreases rs.len(),
{
    if rs.len() == 0 {
        Seq::empty()
    } else {
        match rs.last().0 {
            Some(p) => reported(rs.drop_last()).push(p),
            None => reported(rs.drop_last()),
        }
    }
}

/// The URLs of the pull requests opened, in order.
pub open spec fn opened(rs: Seq<(Option<ProjectInfo>, Option<String>)>) -> Seq<Seq<char>>
    decreases rs.len(),
{
    if rs.len() == 0 {
        Seq::empty()
    } else {
        match rs.last().1 {
            Some(u) => opened(rs.drop_last()).push(u@),
            None => opened(rs.drop_last()),
        }
    }
}

/// Gathers the results of all repositories: the reports grouped by
/// tracking branch, and the URLs of the pull requests opened.
pub fn gather(results: Vec<(Option<ProjectInfo>, Option<String>)>) -> (r: (Vec<Group>, Vec<String>))
    ensures
        grouped(reported(results@), r.0@),
        crate::text::texts(r.1@) == opened(results@),
{
    let ghost orig = results@;
    let mut rest = results;
    let mut infos: Vec<ProjectInfo> = Vec::new();
    let mut urls: Vec<String> = Vec::new();
    let ghost mut i: int = 0;
    assert(orig.take(0) =~= Seq::<(Option<ProjectInfo>, Option<String>)>::empty());
    while rest.len() > 0
        invariant
            0 <= i <= orig.len(),
            rest@ == orig.skip(i),
            infos@ == reported(orig.take(i)),
            crate::text::texts(urls@) == opened(orig.take(i)),
        decreases rest@.len(),
    {
        let (info, url) = rest.remove(0);
        assert(orig.take(i + 1).drop_last() =~= orig.take(i));
        assert(orig.take(i + 1).last() == orig[i]);
        assert(orig[i] == (info, url));
        if let Some(p) = info {
            infos.push(p);
        }
        if let Some(u) = url {
            let ghost before = urls@;
            urls.push(u);
            assert(crate::text::texts(urls@) =~= crate::text::texts(before).push(u@));
        }
        proof {
            i = i + 1;
            assert(rest@ =~= orig.skip(i));
        }
    }
    assert(orig.take(i) =~= orig);
    (group_by_tracking(infos), urls)
}

} // verus!
