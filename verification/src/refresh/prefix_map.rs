//! The map from issue ids to the repositories they come from.
use vstd::prelude::*;
use crate::config::RepoEntry;
use crate::path::{copy_paths, paths_view, FsPath};
use crate::text::{chars_of, same_text};

verus! {

/// Two or more repositories claim one prefix, so that the ids under it are
/// ambiguous.
#[derive(Debug, PartialEq, Eq)]
pub struct Collision {
    pub prefix: String,
    pub repos: Vec<FsPath>,
}

/// What a [`Collision`] holds.
pub struct CollisionModel {
    pub prefix: Seq<char>,
    pub repos: Seq<Seq<u8>>,
}

impl View for Collision {
    type V = CollisionModel;

    open spec fn view(&self) -> CollisionModel {
        CollisionModel { prefix: self.prefix@, repos: paths_view(self.repos@) }
    }
}

impl Clone for Collision {
    fn clone(&self) -> (res: Collision)
        ensures
            res@ == self@,
    {
        Collision { prefix: self.prefix.clone(), repos: copy_paths(&self.repos) }
    }
}

/// What a list of collisions holds.
pub open spec fn collisions_view(v: Seq<Collision>) -> Seq<CollisionModel> {
    v.map_values(|c: Collision| c@)
}

/// What a list of claims holds: a prefix and the repository that claims it.
pub open spec fn pairs_view(v: Seq<(String, RepoEntry)>) -> Seq<(Seq<char>, Seq<u8>)> {
    v.map_values(|p: (String, RepoEntry)| (p.0@, p.1@))
}

/// Maps an issue id to its repository by the longest claimed prefix that is
/// followed by `-`. A prefix that more than one repository claims maps to none,
/// and still takes part in the contest for the longest.
#[derive(Debug)]
pub struct PrefixMap {
    entries: Vec<(String, Option<RepoEntry>)>,
    collisions: Vec<Collision>,
}

/// What a [`PrefixMap`] holds.
pub struct PrefixMapModel {
    pub entries: Seq<(Seq<char>, Option<Seq<u8>>)>,
    pub collisions: Seq<CollisionModel>,
}

pub open spec fn opt_repo(o: Option<RepoEntry>) -> Option<Seq<u8>> {
    match o {
        Some(r) => Some(r@),
        None => None,
    }
}

pub open spec fn entries_view(v: Seq<(String, Option<RepoEntry>)>) -> Seq<
    (Seq<char>, Option<Seq<u8>>),
> {
    v.map_values(|e: (String, Option<RepoEntry>)| (e.0@, opt_repo(e.1)))
}

impl View for PrefixMap {
    type V = PrefixMapModel;

    closed spec fn view(&self) -> PrefixMapModel {
        PrefixMapModel {
            entries: entries_view(self.entries@),
            collisions: collisions_view(self.collisions@),
        }
    }
}

/// The repositories that claim a prefix, in order.
pub open spec fn claims(pairs: Seq<(Seq<char>, Seq<u8>)>, prefix: Seq<char>) -> Seq<Seq<u8>>
    decreases pairs.len(),
{
    if pairs.len() == 0 {
        seq![]
    } else if pairs.last().0 == prefix {
        claims(pairs.drop_last(), prefix).push(pairs.last().1)
    } else {
        claims(pairs.drop_last(), prefix)
    }
}

/// The claimed prefixes, each once, in the order in which they first occur.
pub open spec fn prefix_order(pairs: Seq<(Seq<char>, Seq<u8>)>) -> Seq<Seq<char>>
    decreases pairs.len(),
{
    if pairs.len() == 0 {
        seq![]
    } else if prefix_order(pairs.drop_last()).contains(pairs.last().0) {
        prefix_order(pairs.drop_last())
    } else {
        prefix_order(pairs.drop_last()).push(pairs.last().0)
    }
}

/// What a prefix maps to: its only claimant.
pub open spec fn resolution(pairs: Seq<(Seq<char>, Seq<u8>)>, prefix: Seq<char>) -> Option<Seq<u8>> {
    if claims(pairs, prefix).len() == 1 {
        Some(claims(pairs, prefix)[0])
    } else {
        None
    }
}

/// The lookup table for some claims.
pub open spec fn table(pairs: Seq<(Seq<char>, Seq<u8>)>) -> Seq<(Seq<char>, Option<Seq<u8>>)> {
    prefix_order(pairs).map_values(|p: Seq<char>| (p, resolution(pairs, p)))
}

/// The collisions among some claims, in the order of their prefixes.
pub open spec fn collided(pairs: Seq<(Seq<char>, Seq<u8>)>) -> Seq<CollisionModel> {
    prefix_order(pairs).filter(|p: Seq<char>| claims(pairs, p).len() > 1).map_values(
        |p: Seq<char>| CollisionModel { prefix: p, repos: claims(pairs, p) },
    )
}

/// The map for some claims.
pub open spec fn map_of(pairs: Seq<(Seq<char>, Seq<u8>)>) -> PrefixMapModel {
    PrefixMapModel { entries: table(pairs), collisions: collided(pairs) }
}

/// Whether an id starts with a prefix and then `-`.
pub open spec fn id_under(id: Seq<char>, prefix: Seq<char>) -> bool {
    prefix.push('-').is_prefix_of(id)
}

/// The index of the longest prefix that an id is under.
pub open spec fn longest_match(
    entries: Seq<(Seq<char>, Option<Seq<u8>>)>,
    id: Seq<char>,
) -> Option<int>
    decreases entries.len(),
{
    if entries.len() == 0 {
        None
    } else {
        let before = longest_match(entries.drop_last(), id);
        if id_under(id, entries.last().0) && (before is None || entries.last().0.len()
            >= entries[before->0].0.len()) {
            Some(entries.len() - 1)
        } else {
            before
        }
    }
}

/// The prefix and the repository that an id is attributed to.
pub open spec fn attributed(
    entries: Seq<(Seq<char>, Option<Seq<u8>>)>,
    id: Seq<char>,
) -> Option<(Seq<char>, Seq<u8>)> {
    match longest_match(entries, id) {
        Some(i) => match entries[i].1 {
            Some(repo) => Some((entries[i].0, repo)),
            None => None,
        },
        None => None,
    }
}

/// What an attribution refers to.
pub open spec fn attribution_view(o: Option<(&str, &RepoEntry)>) -> Option<(Seq<char>, Seq<u8>)> {
    match o {
        Some((prefix, repo)) => Some((prefix@, repo@)),
        None => None,
    }
}

/// Whether an id starts with `prefix` and then `-`.
pub fn is_id_under(id: &str, prefix: &str) -> (res: bool)
    ensures
        res == id_under(id@, prefix@),
{
    let x = chars_of(id);
    let p = chars_of(prefix);
    if p.len() >= x.len() {
        return false;
    }
    let mut i: usize = 0;
    while i < p.len()
        invariant
            i <= p.len() < x.len(),
            x@ == id@,
            p@ == prefix@,
            forall|k: int| 0 <= k < i ==> x[k] == p[k],
        decreases p.len() - i,
    {
        if x[i] != p[i] {
            assert(id@.subrange(0, (prefix@.len() + 1) as int)[i as int] != prefix@.push('-')[i as int]);
            return false;
        }
        i += 1;
    }
    if x[p.len()] == '-' {
        assert(prefix@.push('-') =~= id@.subrange(0, (prefix@.len() + 1) as int));
        true
    } else {
        assert(id@.subrange(0, (prefix@.len() + 1) as int)[prefix@.len() as int] != '-');
        false
    }
}

struct Group {
    prefix: String,
    repos: Vec<RepoEntry>,
}

spec fn group_ok(g: Group, pairs: Seq<(Seq<char>, Seq<u8>)>) -> bool {
    g.repos@.map_values(|r: RepoEntry| r@) == claims(pairs, g.prefix@)
}

spec fn group_prefixes(groups: Seq<Group>) -> Seq<Seq<char>> {
    groups.map_values(|g: Group| g.prefix@)
}

proof fn lemma_prefix_order(pairs: Seq<(Seq<char>, Seq<u8>)>)
    ensures
        prefix_order(pairs).no_duplicates(),
        forall|p: Seq<char>|
            prefix_order(pairs).contains(p) <==> #[trigger] claims(pairs, p).len() > 0,
    decreases pairs.len(),
{
    if pairs.len() > 0 {
        lemma_prefix_order(pairs.drop_last());
        let before = prefix_order(pairs.drop_last());
        let last = pairs.last().0;
        let now = prefix_order(pairs);
        assert forall|p: Seq<char>| now.contains(p) <==> #[trigger] claims(pairs, p).len() > 0 by {
            assert(claims(pairs.drop_last(), p).len() > 0 <==> before.contains(p));
            if !before.contains(last) {
                if now.contains(p) {
                    let i = choose|i: int| 0 <= i < now.len() && now[i] == p;
                    if i < before.len() {
                        assert(before[i] == p);
                    }
                }
                if before.contains(p) {
                    let i = choose|i: int| 0 <= i < before.len() && before[i] == p;
                    assert(now[i] == p);
                }
                assert(now[now.len() - 1] == last);
            }
        }
        if !before.contains(last) {
            assert forall|i: int, j: int| 0 <= i < now.len() && 0 <= j < now.len() && i
                != j implies now[i] != now[j] by {
                if i < before.len() && j < before.len() {
                    assert(before[i] != before[j]);
                } else if i < before.len() {
                    assert(before.contains(before[i]));
                } else {
                    assert(before.contains(before[j]));
                }
            }
        }
    }
}

fn grouped(pairs: &Vec<(String, RepoEntry)>) -> (res: Vec<Group>)
    ensures
        group_prefixes(res@) == prefix_order(pairs_view(pairs@)),
        forall|k: int| 0 <= k < res@.len() ==> #[trigger] group_ok(res@[k], pairs_view(pairs@)),
{
    let ghost all = pairs_view(pairs@);
    let mut groups: Vec<Group> = Vec::new();
    let mut i: usize = 0;
    assert(all.take(0) =~= Seq::<(Seq<char>, Seq<u8>)>::empty());
    assert(group_prefixes(groups@) =~= prefix_order(all.take(0)));
    while i < pairs.len()
        invariant
            i <= pairs.len(),
            all == pairs_view(pairs@),
            group_prefixes(groups@) == prefix_order(all.take(i as int)),
            forall|k: int|
                0 <= k < groups@.len() ==> #[trigger] group_ok(groups@[k], all.take(i as int)),
        decreases pairs.len() - i,
    {
        let prefix = &pairs[i].0;
        let repo = &pairs[i].1;
        let ghost before = all.take(i as int);
        let ghost now = all.take(i + 1);
        proof {
            assert(now.drop_last() =~= before);
            assert(now.last() == (prefix@, repo@));
            lemma_prefix_order(before);
        }
        let mut k: usize = 0;
        while k < groups.len() && !same_text(groups[k].prefix.as_str(), prefix.as_str())
            invariant
                k <= groups@.len(),
                forall|m: int| 0 <= m < k ==> (#[trigger] groups@[m]).prefix@ != prefix@,
            decreases groups@.len() - k,
        {
            k += 1;
        }
        let ghost old_groups = groups@;
        if k < groups.len() {
            assert(group_prefixes(groups@)[k as int] == prefix@);
            assert(prefix_order(before).contains(prefix@));
            let mut g = groups.remove(k);
            g.repos.push(repo.clone());
            assert(g.repos@.map_values(|r: RepoEntry| r@)
                =~= old_groups[k as int].repos@.map_values(|r: RepoEntry| r@).push(repo@));
            assert(group_ok(old_groups[k as int], before));
            groups.insert(k, g);
            assert(group_prefixes(groups@) =~= group_prefixes(old_groups));
            assert forall|m: int| 0 <= m < groups@.len() implies #[trigger] group_ok(
                groups@[m],
                now,
            ) by {
                if m != k {
                    assert(groups@[m] == old_groups[m]);
                    assert(group_ok(old_groups[m], before));
                    assert(prefix_order(before)[m] == group_prefixes(old_groups)[m]);
                    assert(prefix_order(before)[k as int] == prefix@);
                    assert(groups@[m].prefix@ != prefix@);
                }
            }
        } else {
            assert(!prefix_order(before).contains(prefix@)) by {
                if prefix_order(before).contains(prefix@) {
                    let m = choose|m: int|
                        0 <= m < prefix_order(before).len() && prefix_order(before)[m] == prefix@;
                    assert(group_prefixes(old_groups)[m] == groups@[m].prefix@);
                }
            }
            assert(claims(before, prefix@).len() == 0);
            let mut repos: Vec<RepoEntry> = Vec::new();
            repos.push(repo.clone());
            groups.push(Group { prefix: prefix.clone(), repos });
            assert(group_prefixes(groups@) =~= group_prefixes(old_groups).push(prefix@));
            assert forall|m: int| 0 <= m < groups@.len() implies #[trigger] group_ok(
                groups@[m],
                now,
            ) by {
                if m < old_groups.len() {
                    assert(groups@[m] == old_groups[m]);
                    assert(group_ok(old_groups[m], before));
                } else {
                    assert(groups@[m].repos@.map_values(|r: RepoEntry| r@) =~= claims(now, prefix@));
                }
            }
        }
        i += 1;
    }
    assert(all.take(all.len() as int) =~= all);
    groups
}

impl Default for PrefixMap {
    fn default() -> (res: PrefixMap)
        ensures
            res@ == map_of(seq![]),
    {
        let none: Vec<(String, RepoEntry)> = Vec::new();
        assert(pairs_view(none@) =~= seq![]);
        PrefixMap::from_pairs(none)
    }
}

impl Clone for PrefixMap {
    fn clone(&self) -> (res: PrefixMap)
        ensures
            res@ == self@,
    {
        let mut entries: Vec<(String, Option<RepoEntry>)> = Vec::new();
        let mut i: usize = 0;
        while i < self.entries.len()
            invariant
                i <= self.entries.len(),
                entries.len() == i,
                forall|k: int|
                    0 <= k < i ==> (#[trigger] entries@[k]).0@ == self.entries@[k].0@ && opt_repo(
                        entries@[k].1,
                    ) == opt_repo(self.entries@[k].1),
            decreases self.entries.len() - i,
        {
            let repo = match &self.entries[i].1 {
                Some(r) => Some(r.clone()),
                None => None,
            };
            entries.push((self.entries[i].0.clone(), repo));
            i += 1;
        }
        let mut collisions: Vec<Collision> = Vec::new();
        let mut j: usize = 0;
        while j < self.collisions.len()
            invariant
                j <= self.collisions.len(),
                collisions.len() == j,
                forall|k: int| 0 <= k < j ==> #[trigger] collisions@[k]@ == self.collisions@[k]@,
            decreases self.collisions.len() - j,
        {
            collisions.push(self.collisions[j].clone());
            j += 1;
        }
        let res = PrefixMap { entries, collisions };
        assert(res@.entries =~= self@.entries);
        assert(res@.collisions =~= self@.collisions);
        res
    }
}

impl PrefixMap {
    /// Builds the map from claims. A prefix with one claimant maps to it; a
    /// prefix with more is a [`Collision`]. The order of first occurrence is
    /// kept.
    pub fn from_pairs(pairs: Vec<(String, RepoEntry)>) -> (res: PrefixMap)
        ensures
            res@ == map_of(pairs_view(pairs@)),
    {
        let ghost all = pairs_view(pairs@);
        let ghost order = prefix_order(all);
        let ghost wide = |p: Seq<char>| claims(all, p).len() > 1;
        let ghost model = |p: Seq<char>| CollisionModel { prefix: p, repos: claims(all, p) };
        let groups = grouped(&pairs);
        proof {
            lemma_prefix_order(all);
        }
        let mut entries: Vec<(String, Option<RepoEntry>)> = Vec::new();
        let mut collisions: Vec<Collision> = Vec::new();
        let mut i: usize = 0;
        assert(order.take(0) =~= Seq::<Seq<char>>::empty());
        assert(collisions_view(collisions@) =~= order.take(0).filter(wide).map_values(model));
        while i < groups.len()
            invariant
                i <= groups@.len(),
                all == pairs_view(pairs@),
                order == prefix_order(all),
                wide == (|p: Seq<char>| claims(all, p).len() > 1),
                model == (|p: Seq<char>| CollisionModel { prefix: p, repos: claims(all, p) }),
                group_prefixes(groups@) == order,
                forall|k: int| 0 <= k < groups@.len() ==> #[trigger] group_ok(groups@[k], all),
                forall|p: Seq<char>|
                    order.contains(p) <==> #[trigger] claims(all, p).len() > 0,
                entries_view(entries@) == order.take(i as int).map_values(
                    |p: Seq<char>| (p, resolution(all, p)),
                ),
                collisions_view(collisions@) == order.take(i as int).filter(wide).map_values(model),
            decreases groups@.len() - i,
        {
            let g = &groups[i];
            let ghost p = g.prefix@;
            let ghost old_entries = entries@;
            let ghost old_collisions = collisions@;
            proof {
                assert(order[i as int] == p);
                assert(group_ok(groups@[i as int], all));
                assert(order.contains(p));
                assert(claims(all, p).len() > 0);
                assert(order.take(i + 1).drop_last() =~= order.take(i as int));
                assert(order.take(i + 1).last() == p);
                order.take(i as int).lemma_filter_push(p, wide);
                assert(order.take(i + 1) =~= order.take(i as int).push(p));
            }
            if g.repos.len() == 1 {
                assert(g.repos@.map_values(|r: RepoEntry| r@)[0] == g.repos@[0]@);
                entries.push((g.prefix.clone(), Some(g.repos[0].clone())));
                assert(entries_view(entries@) =~= entries_view(old_entries).push(
                    (p, resolution(all, p)),
                ));
                assert(!wide(p));
            } else {
                let mut repos: Vec<FsPath> = Vec::new();
                let mut k: usize = 0;
                while k < g.repos.len()
                    invariant
                        k <= g.repos@.len(),
                        repos@.len() == k,
                        forall|m: int| 0 <= m < k ==> #[trigger] repos@[m]@ == g.repos@[m]@,
                    decreases g.repos@.len() - k,
                {
                    repos.push(g.repos[k].path.clone());
                    k += 1;
                }
                assert(paths_view(repos@) =~= claims(all, p)) by {
                    assert(paths_view(repos@) =~= g.repos@.map_values(|r: RepoEntry| r@));
                }
                collisions.push(Collision { prefix: g.prefix.clone(), repos });
                entries.push((g.prefix.clone(), None));
                assert(entries_view(entries@) =~= entries_view(old_entries).push(
                    (p, resolution(all, p)),
                ));
                assert(wide(p));
                assert(collisions_view(collisions@) =~= collisions_view(old_collisions).push(
                    model(p),
                ));
            }
            assert(order.take(i + 1).map_values(|p: Seq<char>| (p, resolution(all, p)))
                =~= order.take(i as int).map_values(|p: Seq<char>| (p, resolution(all, p))).push(
                (p, resolution(all, p)),
            ));
            assert(order.take(i + 1).filter(wide).map_values(model) =~= if wide(p) {
                order.take(i as int).filter(wide).map_values(model).push(model(p))
            } else {
                order.take(i as int).filter(wide).map_values(model)
            });
            i += 1;
        }
        assert(order.take(order.len() as int) =~= order);
        PrefixMap { entries, collisions }
    }

    /// The repository that an id is attributed to.
    pub fn repo_for(&self, id: &str) -> (res: Option<&RepoEntry>)
        ensures
            (match res {
                Some(repo) => Some(repo@),
                None => None,
            }) == (match attributed(self@.entries, id@) {
                Some((_, repo)) => Some(repo),
                None => None,
            }),
    {
        match self.attribution(id) {
            Some((_, repo)) => Some(repo),
            None => None,
        }
    }

    /// The prefix and the repository that an id is attributed to: the longest
    /// claimed prefix that the id is under decides, and it gives none where
    /// more than one repository claims it.
    pub fn attribution(&self, id: &str) -> (res: Option<(&str, &RepoEntry)>)
        ensures
            attribution_view(res) == attributed(self@.entries, id@),
    {
        let ghost table = self@.entries;
        let mut best: Option<usize> = None;
        let mut i: usize = 0;
        assert(table.take(0) =~= Seq::<(Seq<char>, Option<Seq<u8>>)>::empty());
        while i < self.entries.len()
            invariant
                i <= self.entries@.len(),
                table == entries_view(self.entries@),
                (match best {
                    Some(b) => longest_match(table.take(i as int), id@) == Some(b as int) && b < i,
                    None => longest_match(table.take(i as int), id@) is None,
                }),
            decreases self.entries@.len() - i,
        {
            assert(table.take(i + 1).drop_last() =~= table.take(i as int));
            assert(table.take(i + 1).last() == table[i as int]);
            assert(table[i as int].0 == self.entries@[i as int].0@);
            if is_id_under(id, self.entries[i].0.as_str()) {
                let len: usize = chars_of(self.entries[i].0.as_str()).len();
                let longer = match best {
                    Some(b) => {
                        assert(table[b as int].0 == self.entries@[b as int].0@);
                        len >= chars_of(self.entries[b].0.as_str()).len()
                    },
                    None => true,
                };
                if longer {
                    best = Some(i);
                }
            }
            i += 1;
        }
        assert(table.take(table.len() as int) =~= table);
        match best {
            Some(b) => {
                assert(table[b as int].0 == self.entries@[b as int].0@);
                match &self.entries[b].1 {
                    Some(repo) => Some((self.entries[b].0.as_str(), repo)),
                    None => None,
                }
            },
            None => None,
        }
    }

    /// The prefixes that more than one repository claims.
    pub fn collisions(&self) -> (res: &Vec<Collision>)
        ensures
            collisions_view(res@) == self@.collisions,
    {
        &self.collisions
    }
}

proof fn lemma_longest_match(entries: Seq<(Seq<char>, Option<Seq<u8>>)>, id: Seq<char>)
    ensures
        match longest_match(entries, id) {
            Some(b) => {
                &&& 0 <= b < entries.len()
                &&& id_under(id, entries[b].0)
                &&& forall|i: int|
                    0 <= i < entries.len() && id_under(id, (#[trigger] entries[i]).0)
                        ==> entries[i].0.len() <= entries[b].0.len()
            },
            None => forall|i: int|
                0 <= i < entries.len() ==> !id_under(id, (#[trigger] entries[i]).0),
        },
    decreases entries.len(),
{
    if entries.len() > 0 {
        let rest = entries.drop_last();
        lemma_longest_match(rest, id);
        assert forall|i: int| 0 <= i < entries.len() - 1 implies #[trigger] entries[i]
            == rest[i] by {}
        if longest_match(rest, id) is Some {
            assert(entries[longest_match(rest, id)->0] == rest[longest_match(rest, id)->0]);
        }
    }
}

/// The longest claimed prefix decides: an id is attributed to a repository
/// exactly when the longest claimed prefix that the id is under has that
/// repository as its only claimant. A shorter prefix with one claimant never
/// takes over from a longer one with several.
pub proof fn law_longest_claimed_prefix_decides(
    pairs: Seq<(Seq<char>, Seq<u8>)>,
    id: Seq<char>,
    prefix: Seq<char>,
    repo: Seq<u8>,
)
    ensures
        attributed(map_of(pairs).entries, id) == Some((prefix, repo)) <==> {
            &&& id_under(id, prefix)
            &&& claims(pairs, prefix) == seq![repo]
            &&& forall|other: Seq<char>| #[trigger]
                claims(pairs, other).len() > 0 && id_under(id, other) ==> other.len()
                    <= prefix.len()
        },
{
    let order = prefix_order(pairs);
    let entries = table(pairs);
    lemma_prefix_order(pairs);
    lemma_longest_match(entries, id);
    assert forall|i: int| 0 <= i < entries.len() implies #[trigger] entries[i] == (
        order[i],
        resolution(pairs, order[i]),
    ) by {}
    let best = longest_match(entries, id);
    assert forall|other: Seq<char>| #[trigger]
        claims(pairs, other).len() > 0 && id_under(id, other) implies best is Some && other.len()
        <= entries[best->0].0.len() by {
        assert(order.contains(other));
        let k = choose|k: int| 0 <= k < order.len() && order[k] == other;
        assert(entries[k].0 == other);
    }
    if attributed(entries, id) == Some((prefix, repo)) {
        let b = best->0;
        assert(entries[b].0 == prefix);
        assert(claims(pairs, prefix) =~= seq![repo]);
    }
    if id_under(id, prefix) && claims(pairs, prefix) == seq![repo] && (forall|other: Seq<char>|
     #[trigger]
        claims(pairs, other).len() > 0 && id_under(id, other) ==> other.len() <= prefix.len()) {
        assert(claims(pairs, prefix).len() > 0);
        let b = best->0;
        assert(order.contains(order[b]));
        assert(claims(pairs, entries[b].0).len() > 0);
        assert(entries[b].0.len() == prefix.len());
        assert(entries[b].0 =~= prefix) by {
            let p = entries[b].0;
            assert forall|i: int| 0 <= i < p.len() implies p[i] == prefix[i] by {
                assert(p.push('-')[i] == id[i]);
                assert(prefix.push('-')[i] == id[i]);
            }
        }
    }
}

/// The collisions are exactly the prefixes with more than one claimant, each
/// with all of its claimants in order.
pub proof fn law_collisions_are_the_shared_prefixes(
    pairs: Seq<(Seq<char>, Seq<u8>)>,
    c: CollisionModel,
)
    ensures
        map_of(pairs).collisions.contains(c) <==> c.repos == claims(pairs, c.prefix)
            && c.repos.len() > 1,
{
    let order = prefix_order(pairs);
    let wide = |p: Seq<char>| claims(pairs, p).len() > 1;
    lemma_prefix_order(pairs);
    let kept = order.filter(wide);
    let cs = collided(pairs);
    broadcast use vstd::seq_lib::group_filter_ensures;
    if cs.contains(c) {
        let i = choose|i: int| 0 <= i < cs.len() && cs[i] == c;
        assert(cs[i].prefix == kept[i]);
        assert(kept.contains(kept[i]));
        assert(wide(kept[i]));
    }
    if c.repos == claims(pairs, c.prefix) && c.repos.len() > 1 {
        assert(order.contains(c.prefix));
        assert(kept.contains(c.prefix));
        let i = choose|i: int| 0 <= i < kept.len() && kept[i] == c.prefix;
        assert(cs[i] == c);
    }
}

/// An id is attributed to no repository exactly when no claimed prefix applies to
/// it, or the longest one that does has several claimants; no shorter prefix
/// steps in.
pub proof fn law_a_contested_id_is_unattributed(pairs: Seq<(Seq<char>, Seq<u8>)>, id: Seq<char>)
    ensures
        attributed(map_of(pairs).entries, id) is None <==> {
            ||| forall|p: Seq<char>| #[trigger] claims(pairs, p).len() > 0 ==> !id_under(id, p)
            ||| exists|p: Seq<char>| #[trigger]
                claims(pairs, p).len() > 1 && is_longest_claim(pairs, id, p)
        },
{
    let order = prefix_order(pairs);
    let entries = table(pairs);
    lemma_prefix_order(pairs);
    lemma_longest_match(entries, id);
    assert forall|i: int| 0 <= i < entries.len() implies #[trigger] entries[i] == (
        order[i],
        resolution(pairs, order[i]),
    ) by {}
    assert forall|p: Seq<char>| #[trigger] claims(pairs, p).len() > 0 && id_under(
        id,
        p,
    ) implies longest_match(entries, id) is Some && p.len()
        <= entries[longest_match(entries, id)->0].0.len() by {
        assert(order.contains(p));
        let k = choose|k: int| 0 <= k < order.len() && order[k] == p;
        assert(entries[k].0 == p);
    }
    match longest_match(entries, id) {
        Some(b) => {
            let p = entries[b].0;
            assert(order.contains(order[b]));
            assert(claims(pairs, p).len() > 0);
            assert(is_longest_claim(pairs, id, p));
            if exists|q: Seq<char>| #[trigger]
                claims(pairs, q).len() > 1 && is_longest_claim(pairs, id, q) {
                let q = choose|q: Seq<char>| #[trigger]
                    claims(pairs, q).len() > 1 && is_longest_claim(pairs, id, q);
                assert(claims(pairs, q).len() > 0);
                lemma_same_length_same_prefix(id, p, q);
            }
        },
        None => {
            assert forall|p: Seq<char>| #[trigger] claims(pairs, p).len() > 0 implies !id_under(
                id,
                p,
            ) by {}
        },
    }
}

/// Whether a prefix is the longest claimed one that applies to an id.
pub open spec fn is_longest_claim(
    pairs: Seq<(Seq<char>, Seq<u8>)>,
    id: Seq<char>,
    prefix: Seq<char>,
) -> bool {
    &&& claims(pairs, prefix).len() > 0
    &&& id_under(id, prefix)
    &&& forall|other: Seq<char>| #[trigger]
        claims(pairs, other).len() > 0 && id_under(id, other) ==> other.len() <= prefix.len()
}

proof fn lemma_same_length_same_prefix(id: Seq<char>, p: Seq<char>, q: Seq<char>)
    requires
        id_under(id, p),
        id_under(id, q),
        p.len() == q.len(),
    ensures
        p == q,
{
    assert forall|i: int| 0 <= i < p.len() implies p[i] == q[i] by {
        assert(p.push('-')[i] == id[i]);
        assert(q.push('-')[i] == id[i]);
    }
    assert(p =~= q);
}

proof fn lemma_claims_count(pairs: Seq<(Seq<char>, Seq<u8>)>, prefix: Seq<char>, repo: Seq<u8>)
    ensures
        claims(pairs, prefix).to_multiset().count(repo) == pairs.to_multiset().count(
            (prefix, repo),
        ),
    decreases pairs.len(),
{
    broadcast use vstd::seq_lib::group_to_multiset_ensures;

    if pairs.len() == 0 {
        assert(claims(pairs, prefix) =~= Seq::<Seq<u8>>::empty());
        assert(!claims(pairs, prefix).contains(repo));
        assert(!pairs.contains((prefix, repo)));
    } else {
        let rest = pairs.drop_last();
        lemma_claims_count(rest, prefix, repo);
        assert(pairs =~= rest.push(pairs.last()));
    }
}

proof fn lemma_claims_of_a_reordering(
    pairs: Seq<(Seq<char>, Seq<u8>)>,
    other: Seq<(Seq<char>, Seq<u8>)>,
    prefix: Seq<char>,
)
    requires
        pairs.to_multiset() == other.to_multiset(),
    ensures
        claims(pairs, prefix).to_multiset() == claims(other, prefix).to_multiset(),
        claims(pairs, prefix).len() == claims(other, prefix).len(),
{
    broadcast use vstd::seq_lib::group_to_multiset_ensures;

    let (a, b) = (claims(pairs, prefix), claims(other, prefix));
    assert forall|repo: Seq<u8>| #[trigger] a.to_multiset().count(repo) == b.to_multiset().count(
        repo,
    ) by {
        lemma_claims_count(pairs, prefix, repo);
        lemma_claims_count(other, prefix, repo);
    }
    assert(a.to_multiset() =~= b.to_multiset());
    assert(a.len() == a.to_multiset().len());
    assert(b.len() == b.to_multiset().len());
}

proof fn lemma_sole_claim_of_a_reordering(
    pairs: Seq<(Seq<char>, Seq<u8>)>,
    other: Seq<(Seq<char>, Seq<u8>)>,
    id: Seq<char>,
    prefix: Seq<char>,
    repo: Seq<u8>,
)
    requires
        pairs.to_multiset() == other.to_multiset(),
        attributed(map_of(pairs).entries, id) == Some((prefix, repo)),
    ensures
        attributed(map_of(other).entries, id) == Some((prefix, repo)),
{
    broadcast use vstd::seq_lib::group_to_multiset_ensures;

    law_longest_claimed_prefix_decides(pairs, id, prefix, repo);
    law_longest_claimed_prefix_decides(other, id, prefix, repo);
    lemma_claims_of_a_reordering(pairs, other, prefix);
    let (a, b) = (claims(pairs, prefix), claims(other, prefix));
    assert(a[0] == repo);
    assert(a.contains(repo));
    assert(a.to_multiset().count(repo) > 0);
    assert(b.to_multiset().count(repo) > 0);
    assert(b.contains(repo));
    assert(b =~= seq![repo]);
    assert forall|q: Seq<char>| #[trigger] claims(other, q).len() > 0 && id_under(id, q) implies q.len()
        <= prefix.len() by {
        lemma_claims_of_a_reordering(pairs, other, q);
        assert(claims(pairs, q).len() > 0);
    }
}

/// The order of the claims does not matter: the same claims in another order
/// attribute every id alike.
pub proof fn law_the_order_of_claims_is_irrelevant(
    pairs: Seq<(Seq<char>, Seq<u8>)>,
    other: Seq<(Seq<char>, Seq<u8>)>,
    id: Seq<char>,
)
    requires
        pairs.to_multiset() == other.to_multiset(),
    ensures
        attributed(map_of(pairs).entries, id) == attributed(map_of(other).entries, id),
{
    match attributed(map_of(pairs).entries, id) {
        Some((prefix, repo)) => lemma_sole_claim_of_a_reordering(pairs, other, id, prefix, repo),
        None => match attributed(map_of(other).entries, id) {
            Some((prefix, repo)) => lemma_sole_claim_of_a_reordering(
                other,
                pairs,
                id,
                prefix,
                repo,
            ),
            None => {},
        },
    }
}

/// The index of the first claim of a prefix; the number of claims where there is
/// none.
pub open spec fn first_claim(pairs: Seq<(Seq<char>, Seq<u8>)>, prefix: Seq<char>) -> int
    decreases pairs.len(),
{
    if pairs.len() == 0 {
        0
    } else {
        let before = first_claim(pairs.drop_last(), prefix);
        if before < pairs.len() - 1 || pairs.last().0 == prefix {
            before
        } else {
            pairs.len() as int
        }
    }
}

proof fn lemma_first_claim(pairs: Seq<(Seq<char>, Seq<u8>)>, prefix: Seq<char>)
    ensures
        0 <= first_claim(pairs, prefix) <= pairs.len(),
        first_claim(pairs, prefix) < pairs.len() ==> pairs[first_claim(pairs, prefix)].0 == prefix,
        forall|i: int| 0 <= i < first_claim(pairs, prefix) ==> (#[trigger] pairs[i]).0 != prefix,
    decreases pairs.len(),
{
    if pairs.len() > 0 {
        let rest = pairs.drop_last();
        lemma_first_claim(rest, prefix);
        assert forall|i: int| 0 <= i < rest.len() implies #[trigger] pairs[i] == rest[i] by {}
    }
}

proof fn lemma_prefixes_stand_in_order(pairs: Seq<(Seq<char>, Seq<u8>)>)
    ensures
        forall|i: int|
            0 <= i < prefix_order(pairs).len() ==> first_claim(
                pairs,
                #[trigger] prefix_order(pairs)[i],
            ) < pairs.len(),
        forall|i: int, j: int|
            0 <= i < j < prefix_order(pairs).len() ==> first_claim(
                pairs,
                #[trigger] prefix_order(pairs)[i],
            ) < first_claim(pairs, #[trigger] prefix_order(pairs)[j]),
    decreases pairs.len(),
{
    if pairs.len() > 0 {
        let rest = pairs.drop_last();
        let before = prefix_order(rest);
        let order = prefix_order(pairs);
        let p = pairs.last().0;
        lemma_prefixes_stand_in_order(rest);
        lemma_first_claim(rest, p);
        if !before.contains(p) {
            lemma_prefix_order(rest);
            let k = first_claim(rest, p);
            if k < rest.len() {
                lemma_claimed_at(rest, k);
            }
        }
        assert forall|i: int| 0 <= i < before.len() implies #[trigger] order[i] == before[i] by {}
    }
}

proof fn lemma_claimed_at(pairs: Seq<(Seq<char>, Seq<u8>)>, k: int)
    requires
        0 <= k < pairs.len(),
    ensures
        claims(pairs, pairs[k].0).len() > 0,
    decreases pairs.len(),
{
    if k < pairs.len() - 1 {
        assert(pairs.drop_last()[k] == pairs[k]);
        lemma_claimed_at(pairs.drop_last(), k);
    }
}

proof fn lemma_filter_keeps_order(
    s: Seq<Seq<char>>,
    pred: spec_fn(Seq<char>) -> bool,
    rank: spec_fn(Seq<char>) -> int,
)
    requires
        forall|i: int, j: int|
            0 <= i < j < s.len() ==> rank(#[trigger] s[i]) < rank(#[trigger] s[j]),
    ensures
        forall|i: int, j: int|
            0 <= i < j < s.filter(pred).len() ==> rank(#[trigger] s.filter(pred)[i]) < rank(
                #[trigger] s.filter(pred)[j],
            ),
    decreases s.len(),
{
    if s.len() == 0 {
        s.lemma_filter_len(pred);
    } else {
        let rest = s.drop_last();
        let last = s.last();
        assert(s =~= rest.push(last));
        assert forall|i: int| 0 <= i < rest.len() implies #[trigger] rest[i] == s[i] by {}
        lemma_filter_keeps_order(rest, pred, rank);
        rest.lemma_filter_push(last, pred);
        if pred(last) {
            let kept = rest.filter(pred);
            let all = s.filter(pred);
            assert forall|i: int, j: int| 0 <= i < j < all.len() implies rank(
                #[trigger] all[i],
            ) < rank(#[trigger] all[j]) by {
                assert(all[i] == kept[i]);
                if j == kept.len() {
                    assert(kept.contains(kept[i]));
                    rest.lemma_filter_contains_rev(pred, kept[i]);
                    let k = rest.index_of(kept[i]);
                    assert(s[k] == kept[i]);
                    assert(s[s.len() - 1] == last);
                } else {
                    assert(all[j] == kept[j]);
                }
            }
        }
    }
}

/// Each shared prefix is listed once, in the order in which they are first
/// claimed; and no id is attributed through a shared prefix.
pub proof fn law_each_collision_is_listed_once_in_order(
    pairs: Seq<(Seq<char>, Seq<u8>)>,
    id: Seq<char>,
)
    ensures
        ({
            let cs = map_of(pairs).collisions;
            &&& forall|i: int, j: int|
                0 <= i < j < cs.len() ==> first_claim(pairs, (#[trigger] cs[i]).prefix)
                    < first_claim(pairs, (#[trigger] cs[j]).prefix)
            &&& forall|i: int, j: int|
                0 <= i < j < cs.len() ==> (#[trigger] cs[i]).prefix != (#[trigger] cs[j]).prefix
            &&& forall|i: int|
                0 <= i < cs.len() ==> (attributed(map_of(pairs).entries, id) matches Some((p, _))
                    ==> p != (#[trigger] cs[i]).prefix)
        }),
{
    let order = prefix_order(pairs);
    let wide = |p: Seq<char>| claims(pairs, p).len() > 1;
    let rank = |p: Seq<char>| first_claim(pairs, p);
    let kept = order.filter(wide);
    let cs = collided(pairs);
    lemma_prefixes_stand_in_order(pairs);
    assert forall|i: int, j: int| 0 <= i < j < order.len() implies rank(#[trigger] order[i])
        < rank(#[trigger] order[j]) by {}
    lemma_filter_keeps_order(order, wide, rank);
    assert forall|i: int, j: int| 0 <= i < j < cs.len() implies first_claim(
        pairs,
        (#[trigger] cs[i]).prefix,
    ) < first_claim(pairs, (#[trigger] cs[j]).prefix) by {
        assert(cs[i].prefix == kept[i] && cs[j].prefix == kept[j]);
        assert(rank(kept[i]) < rank(kept[j]));
    }
    assert forall|i: int| 0 <= i < cs.len() implies (attributed(
        map_of(pairs).entries,
        id,
    ) matches Some((p, _)) ==> p != (#[trigger] cs[i]).prefix) by {
        match attributed(map_of(pairs).entries, id) {
            Some((p, repo)) => {
                law_longest_claimed_prefix_decides(pairs, id, p, repo);
                assert(cs.contains(cs[i]));
                law_collisions_are_the_shared_prefixes(pairs, cs[i]);
            },
            None => {},
        }
    }
}

/// An id is under a prefix where the prefix is followed by a dash and then by
/// anything, and nowhere else: a longer word that merely starts with the prefix
/// is not under it, nor is the prefix by itself.
pub proof fn law_an_id_is_under_a_prefix_at_a_dash(
    prefix: Seq<char>,
    rest: Seq<char>,
    id: Seq<char>,
    c: char,
)
    ensures
        id_under(prefix + seq!['-'] + rest, prefix),
        !id_under(prefix, prefix),
        c != '-' ==> !id_under(prefix + seq![c] + rest, prefix),
        id_under(id, prefix) <==> id.len() > prefix.len() && id[prefix.len() as int] == '-'
            && prefix.is_prefix_of(id),
{
    let p = prefix.push('-');
    let n = prefix.len() as int;
    let good = prefix + seq!['-'] + rest;
    assert(p =~= good.take(n + 1));
    let other = prefix + seq![c] + rest;
    if id_under(other, prefix) {
        assert(p[n] == other.take(n + 1)[n]);
    }
    if id_under(id, prefix) {
        assert(p =~= id.take(n + 1));
        assert(p[n] == id.take(n + 1)[n]);
        assert(prefix =~= id.take(n)) by {
            assert forall|i: int| 0 <= i < n implies prefix[i] == id.take(n)[i] by {
                assert(p[i] == id.take(n + 1)[i]);
            }
        }
    }
    if id.len() > n && id[n] == '-' && prefix.is_prefix_of(id) {
        assert(prefix =~= id.take(n));
        assert(p =~= id.take(n + 1)) by {
            assert forall|i: int| 0 <= i < n + 1 implies p[i] == id.take(n + 1)[i] by {
                if i < n {
                    assert(prefix[i] == id.take(n)[i]);
                }
            }
        }
    }
}

/// Who claims a prefix: every repository that was paired with it, in the order
/// of the pairs, and none that was paired with another.
pub proof fn law_claims_are_the_pairs_of_a_prefix(
    a: Seq<(Seq<char>, Seq<u8>)>,
    b: Seq<(Seq<char>, Seq<u8>)>,
    prefix: Seq<char>,
    pair: (Seq<char>, Seq<u8>),
)
    ensures
        claims(a + b, prefix) == claims(a, prefix) + claims(b, prefix),
        claims(seq![pair], prefix) == if pair.0 == prefix {
            seq![pair.1]
        } else {
            Seq::<Seq<u8>>::empty()
        },
    decreases b.len(),
{
    let one = seq![pair];
    assert(one.drop_last() =~= Seq::<(Seq<char>, Seq<u8>)>::empty());
    reveal_with_fuel(claims, 2);
    assert(claims(one, prefix) =~= if pair.0 == prefix {
        seq![pair.1]
    } else {
        Seq::<Seq<u8>>::empty()
    });
    if b.len() == 0 {
        assert(a + b =~= a);
        assert(claims(a + b, prefix) =~= claims(a, prefix) + claims(b, prefix));
    } else {
        law_claims_are_the_pairs_of_a_prefix(a, b.drop_last(), prefix, pair);
        assert((a + b).drop_last() =~= a + b.drop_last());
        assert((a + b).last() == b.last());
        assert(claims(a + b, prefix) =~= claims(a, prefix) + claims(b, prefix));
    }
}

} // verus!
