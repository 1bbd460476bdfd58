use vstd::prelude::*;

use crate::util::reversed;

verus! {

broadcast use vstd::seq_lib::group_seq_properties;

/// One play credited to a group: the group's key, the name and artist
/// shown for the group, and the position of the scrobble it comes from.
pub struct Play {
    pub key: String,
    pub name: String,
    pub artist: String,
    pub scrobble: usize,
}

/// The plays credited to one key.
pub struct PlayGroup {
    pub id: String,
    pub name: String,
    pub artist: String,
    pub plays: u64,
    /// The positions of the scrobbles of the plays, in order.
    pub scrobbles: Vec<usize>,
}

pub struct GroupView {
    pub id: Seq<char>,
    pub name: Seq<char>,
    pub artist: Seq<char>,
    pub plays: nat,
    pub scrobbles: Seq<usize>,
}

impl View for PlayGroup {
    type V = GroupView;

    open spec fn view(&self) -> GroupView {
        GroupView {
            id: self.id@,
            name: self.name@,
            artist: self.artist@,
            plays: self.plays as nat,
            scrobbles: self.scrobbles@,
        }
    }
}

pub open spec fn group_views(groups: Seq<PlayGroup>) -> Seq<GroupView> {
    groups.map_values(|g: PlayGroup| g@)
}

pub open spec fn keys_of(plays: Seq<Play>) -> Seq<Seq<char>> {
    plays.map_values(|p: Play| p.key@)
}

/// The distinct elements of `s`, each where it first occurs.
pub open spec fn first_occurrences(s: Seq<Seq<char>>) -> Seq<Seq<char>>
    decreases s.len(),
{
    if s.len() == 0 {
        Seq::empty()
    } else {
        let earlier = first_occurrences(s.drop_last());
        if earlier.contains(s.last()) {
            earlier
        } else {
            earlier.push(s.last())
        }
    }
}

pub open spec fn with_key(id: Seq<char>) -> spec_fn(Play) -> bool {
    |p: Play| p.key@ == id
}

/// The group of the plays with key `id`: it shows the name and artist of
/// the first of them and counts them all.
pub open spec fn group_of(plays: Seq<Play>, id: Seq<char>) -> GroupView {
    let mine = plays.filter(with_key(id));
    GroupView {
        id: id,
        name: mine[0].name@,
        artist: mine[0].artist@,
        plays: mine.len(),
        scrobbles: mine.map_values(|p: Play| p.scrobble),
    }
}

/// The plays grouped by key, the groups in the order in which their keys
/// first occur.
pub open spec fn grouped(plays: Seq<Play>) -> Seq<GroupView> {
    first_occurrences(keys_of(plays)).map_values(|id: Seq<char>| group_of(plays, id))
}

/// The sum of the plays of the groups.
pub open spec fn total_plays(groups: Seq<GroupView>) -> nat
    decreases groups.len(),
{
    if groups.len() == 0 {
        0
    } else {
        total_plays(groups.drop_last()) + groups.last().plays
    }
}

pub proof fn lemma_first_occurrences_contains(s: Seq<Seq<char>>)
    ensures
        forall|k: Seq<char>| #[trigger] first_occurrences(s).contains(k) <==> s.contains(k),
        first_occurrences(s).no_duplicates(),
    decreases s.len(),
{
    if s.len() > 0 {
        lemma_first_occurrences_contains(s.drop_last());
        assert(s =~= s.drop_last().push(s.last()));
        assert forall|k: Seq<char>| #[trigger] first_occurrences(s).contains(k) <==> s.contains(
            k,
        ) by {
            if s.contains(k) && k != s.last() {
                let i = choose|i: int| 0 <= i < s.len() && s[i] == k;
                assert(s.drop_last()[i] == k);
            }
            if first_occurrences(s).contains(k) && k != s.last() {
                assert(first_occurrences(s.drop_last()).contains(k));
                let i = choose|i: int| 0 <= i < s.drop_last().len() && s.drop_last()[i] == k;
                assert(s[i] == k);
            }
        }
    }
}

proof fn lemma_keys_push(t: Seq<Play>, x: Play)
    ensures
        keys_of(t.push(x)) == keys_of(t).push(x.key@),
{
    assert(keys_of(t.push(x)) =~= keys_of(t).push(x.key@));
}

/// A key that occurs among the plays has at least one play.
pub proof fn lemma_present_key_nonempty(t: Seq<Play>, id: Seq<char>)
    requires
        keys_of(t).contains(id),
    ensures
        t.filter(with_key(id)).len() > 0,
{
    let i = choose|i: int| 0 <= i < keys_of(t).len() && keys_of(t)[i] == id;
    t.lemma_filter_contains(with_key(id), i);
}

/// A key that does not occur among the plays has none.
pub proof fn lemma_absent_key_empty(t: Seq<Play>, id: Seq<char>)
    requires
        !keys_of(t).contains(id),
    ensures
        t.filter(with_key(id)).len() == 0,
{
    let f = t.filter(with_key(id));
    if f.len() > 0 {
        t.lemma_filter_pred(with_key(id), 0);
        assert(f.contains(f[0]));
        t.lemma_filter_contains_rev(with_key(id), f[0]);
        let i = choose|i: int| 0 <= i < t.len() && t[i] == f[0];
        assert(keys_of(t)[i] == id);
    }
}

/// A play whose key already has a group adds itself to that group and
/// leaves the others as they were.
pub proof fn lemma_grouped_push_existing(t: Seq<Play>, x: Play, j: int)
    requires
        0 <= j < first_occurrences(keys_of(t)).len(),
        first_occurrences(keys_of(t))[j] == x.key@,
    ensures
        grouped(t.push(x)) == grouped(t).update(
            j,
            GroupView {
                plays: grouped(t)[j].plays + 1,
                scrobbles: grouped(t)[j].scrobbles.push(x.scrobble),
                ..grouped(t)[j]
            },
        ),
{
    let d = first_occurrences(keys_of(t));
    lemma_keys_push(t, x);
    lemma_first_occurrences_contains(keys_of(t));
    assert(d.contains(x.key@));
    assert(first_occurrences(keys_of(t.push(x))) =~= d) by {
        assert(keys_of(t.push(x)).drop_last() =~= keys_of(t));
    }
    lemma_present_key_nonempty(t, x.key@);
    let lhs = grouped(t.push(x));
    let rhs = grouped(t).update(
        j,
        GroupView {
            plays: grouped(t)[j].plays + 1,
            scrobbles: grouped(t)[j].scrobbles.push(x.scrobble),
            ..grouped(t)[j]
        },
    );
    assert forall|i: int| 0 <= i < d.len() implies #[trigger] lhs[i] == rhs[i] by {
        let id = d[i];
        t.lemma_filter_push(x, with_key(id));
        if i == j {
            let mine = t.filter(with_key(id));
            assert(mine.push(x)[0] == mine[0]);
            assert(mine.push(x).map_values(|p: Play| p.scrobble) =~= mine.map_values(
                |p: Play| p.scrobble,
            ).push(x.scrobble));
        } else {
            assert(d[i] != d[j]);
        }
    }
    assert(lhs =~= rhs);
}

/// A play whose key has no group yet opens a new group at the end.
pub proof fn lemma_grouped_push_new(t: Seq<Play>, x: Play)
    requires
        !first_occurrences(keys_of(t)).contains(x.key@),
    ensures
        grouped(t.push(x)) == grouped(t).push(
            GroupView {
                id: x.key@,
                name: x.name@,
                artist: x.artist@,
                plays: 1,
                scrobbles: seq![x.scrobble],
            },
        ),
{
    let d = first_occurrences(keys_of(t));
    lemma_keys_push(t, x);
    lemma_first_occurrences_contains(keys_of(t));
    assert(first_occurrences(keys_of(t.push(x))) =~= d.push(x.key@)) by {
        assert(keys_of(t.push(x)).drop_last() =~= keys_of(t));
    }
    lemma_absent_key_empty(t, x.key@);
    let lhs = grouped(t.push(x));
    let rhs = grouped(t).push(
        GroupView {
            id: x.key@,
            name: x.name@,
            artist: x.artist@,
            plays: 1,
            scrobbles: seq![x.scrobble],
        },
    );
    assert forall|i: int| 0 <= i <= d.len() implies #[trigger] lhs[i] == rhs[i] by {
        if i == d.len() {
            t.lemma_filter_push(x, with_key(x.key@));
            let mine = t.filter(with_key(x.key@)).push(x);
            assert(mine =~= seq![x]);
            assert(mine.map_values(|p: Play| p.scrobble) =~= seq![x.scrobble]);
        } else {
            let id = d[i];
            t.lemma_filter_push(x, with_key(id));
            assert(d.contains(id));
        }
    }
    assert(lhs =~= rhs);
}

proof fn lemma_total_plays_update(g: Seq<GroupView>, j: int, v: GroupView)
    requires
        0 <= j < g.len(),
    ensures
        total_plays(g.update(j, v)) + g[j].plays == total_plays(g) + v.plays,
    decreases g.len(),
{
    if j < g.len() - 1 {
        lemma_total_plays_update(g.drop_last(), j, v);
        assert(g.update(j, v).drop_last() =~= g.drop_last().update(j, v));
    } else {
        assert(g.update(j, v).drop_last() =~= g.drop_last());
    }
}

/// Grouping loses no play and invents none: the plays of all groups add up
/// to the number of plays grouped.
pub proof fn law_grouping_conserves_plays(plays: Seq<Play>)
    ensures
        total_plays(grouped(plays)) == plays.len(),
    decreases plays.len(),
{
    if plays.len() > 0 {
        let t = plays.drop_last();
        let x = plays.last();
        assert(plays =~= t.push(x));
        law_grouping_conserves_plays(t);
        let d = first_occurrences(keys_of(t));
        if d.contains(x.key@) {
            let j = choose|j: int| 0 <= j < d.len() && d[j] == x.key@;
            lemma_grouped_push_existing(t, x, j);
            lemma_total_plays_update(
                grouped(t),
                j,
                GroupView {
                    plays: grouped(t)[j].plays + 1,
                    scrobbles: grouped(t)[j].scrobbles.push(x.scrobble),
                    ..grouped(t)[j]
                },
            );
        } else {
            lemma_grouped_push_new(t, x);
            let g = grouped(t.push(x));
            assert(g.drop_last() =~= grouped(t));
        }
    }
}

/// Each key has exactly one group, and only keys that occur have one.
pub proof fn law_grouping_keys_distinct(plays: Seq<Play>)
    ensures
        forall|i: int, j: int|
            0 <= i < j < grouped(plays).len() ==> grouped(plays)[i].id != grouped(plays)[j].id,
        forall|k: Seq<char>|
            keys_of(plays).contains(k) <==> exists|i: int|
                0 <= i < grouped(plays).len() && #[trigger] grouped(plays)[i].id == k,
{
    let d = first_occurrences(keys_of(plays));
    lemma_first_occurrences_contains(keys_of(plays));
    assert forall|k: Seq<char>|
        keys_of(plays).contains(k) implies exists|i: int|
            0 <= i < grouped(plays).len() && #[trigger] grouped(plays)[i].id == k by {
        assert(d.contains(k));
        let i = choose|i: int| 0 <= i < d.len() && d[i] == k;
        assert(grouped(plays)[i].id == k);
    }
    assert forall|k: Seq<char>|
        (exists|i: int| 0 <= i < grouped(plays).len() && #[trigger] grouped(plays)[i].id == k)
            implies keys_of(plays).contains(k) by {
        let i = choose|i: int| 0 <= i < grouped(plays).len() && grouped(plays)[i].id == k;
        assert(d[i] == k);
        assert(d.contains(k));
    }
}

proof fn lemma_first_occurrences_order(s: Seq<Seq<char>>, i: int, i2: int, k: int)
    requires
        0 <= i < i2 < first_occurrences(s).len(),
        0 <= k < s.len(),
        s[k] == first_occurrences(s)[i2],
    ensures
        exists|k1: int| 0 <= k1 < k && #[trigger] s[k1] == first_occurrences(s)[i],
    decreases s.len(),
{
    let t = s.drop_last();
    let x = s.last();
    assert(s =~= t.push(x));
    lemma_first_occurrences_contains(t);
    let d = first_occurrences(s);
    let dt = first_occurrences(t);
    assert(d[i] == dt[i]);
    assert(dt.contains(dt[i]));
    let a = choose|a: int| 0 <= a < t.len() && t[a] == dt[i];
    if i2 < dt.len() {
        assert(d[i2] == dt[i2]);
        assert(dt.contains(dt[i2]));
        let b = choose|b: int| 0 <= b < t.len() && t[b] == dt[i2];
        let k0 = if k < t.len() { k } else { b };
        assert(t[k0] == dt[i2]);
        lemma_first_occurrences_order(t, i, i2, k0);
        let k1 = choose|k1: int| 0 <= k1 < k0 && #[trigger] t[k1] == dt[i];
        assert(s[k1] == t[k1]);
    } else {
        assert(!dt.contains(x));
        if k < t.len() {
            assert(t[k] == s[k]);
            assert(t.contains(x));
        }
        assert(s[a] == t[a]);
    }
}

/// The groups come in the order in which their keys are first played:
/// every play of a later group comes after some play of each earlier one.
pub proof fn law_groups_in_order_of_first_play(plays: Seq<Play>, i: int, i2: int, k: int)
    requires
        0 <= i < i2 < grouped(plays).len(),
        0 <= k < plays.len(),
        plays[k].key@ == grouped(plays)[i2].id,
    ensures
        exists|k1: int| 0 <= k1 < k && (#[trigger] plays[k1]).key@ == grouped(plays)[i].id,
{
    let s = keys_of(plays);
    let d = first_occurrences(s);
    assert(s[k] == d[i2]);
    lemma_first_occurrences_order(s, i, i2, k);
    let k1 = choose|k1: int| 0 <= k1 < k && #[trigger] s[k1] == d[i];
    assert(plays[k1].key@ == s[k1]);
}

/// Whether some group has key `id`.
pub open spec fn has_group(groups: Seq<GroupView>, id: Seq<char>) -> bool {
    exists|i: int| 0 <= i < groups.len() && #[trigger] groups[i].id == id
}

/// Whether a play's key passes `keep`.
pub open spec fn key_kept(keep: spec_fn(Seq<char>) -> bool) -> spec_fn(Play) -> bool {
    |p: Play| keep(p.key@)
}

/// Filtering by a weaker predicate first changes nothing.
pub proof fn lemma_filter_within<A>(s: Seq<A>, weak: spec_fn(A) -> bool, strong: spec_fn(A) -> bool)
    requires
        forall|x: A| #[trigger] strong(x) ==> weak(x),
    ensures
        s.filter(weak).filter(strong) == s.filter(strong),
    decreases s.len(),
{
    if s.len() > 0 {
        let t = s.drop_last();
        let x = s.last();
        assert(s =~= t.push(x));
        lemma_filter_within(t, weak, strong);
        t.lemma_filter_push(x, weak);
        t.lemma_filter_push(x, strong);
        t.filter(weak).lemma_filter_push(x, strong);
    }
}

/// Keeping only the plays whose key passes `keep` keeps exactly the groups
/// whose key passes it, and leaves each of them as it was.
pub proof fn lemma_grouped_key_filter(c: Seq<Play>, keep: spec_fn(Seq<char>) -> bool)
    ensures
        forall|i: int|
            0 <= i < grouped(c.filter(key_kept(keep))).len() ==> keep(
                #[trigger] grouped(c.filter(key_kept(keep)))[i].id,
            ) && exists|j: int|
                0 <= j < grouped(c).len() && grouped(c)[j] == grouped(c.filter(key_kept(keep)))[i],
        forall|j: int|
            0 <= j < grouped(c).len() && keep(#[trigger] grouped(c)[j].id) ==> exists|i: int|
                0 <= i < grouped(c.filter(key_kept(keep))).len() && grouped(
                    c.filter(key_kept(keep)),
                )[i] == grouped(c)[j],
{
    let cf = c.filter(key_kept(keep));
    let d = first_occurrences(keys_of(c));
    let df = first_occurrences(keys_of(cf));
    lemma_first_occurrences_contains(keys_of(c));
    lemma_first_occurrences_contains(keys_of(cf));
    assert forall|k: Seq<char>| keep(k) implies #[trigger] cf.filter(with_key(k)) == c.filter(
        with_key(k),
    ) by {
        lemma_filter_within(c, key_kept(keep), with_key(k));
    }
    assert forall|k: Seq<char>| #[trigger] keys_of(cf).contains(k) implies keep(k) && keys_of(
        c,
    ).contains(k) by {
        let i = choose|i: int| 0 <= i < keys_of(cf).len() && keys_of(cf)[i] == k;
        c.lemma_filter_pred(key_kept(keep), i);
        assert(cf.contains(cf[i]));
        c.lemma_filter_contains_rev(key_kept(keep), cf[i]);
        let j = choose|j: int| 0 <= j < c.len() && c[j] == cf[i];
        assert(keys_of(c)[j] == k);
    }
    assert forall|i: int| 0 <= i < grouped(cf).len() implies keep(#[trigger] grouped(cf)[i].id)
        && exists|j: int| 0 <= j < grouped(c).len() && grouped(c)[j] == grouped(cf)[i] by {
        let k = df[i];
        assert(df.contains(k));
        assert(keys_of(cf).contains(k));
        assert(d.contains(k));
        let j = choose|j: int| 0 <= j < d.len() && d[j] == k;
        assert(grouped(c)[j] == group_of(c, k));
        assert(grouped(cf)[i] == group_of(cf, k));
    }
    assert forall|j: int| 0 <= j < grouped(c).len() && keep(#[trigger] grouped(c)[j].id) implies exists|i: int|
        0 <= i < grouped(cf).len() && grouped(cf)[i] == grouped(c)[j] by {
        let k = d[j];
        assert(d.contains(k));
        lemma_present_key_nonempty(c, k);
        lemma_absent_key_empty_converse(cf, k);
        assert(df.contains(k));
        let i = choose|i: int| 0 <= i < df.len() && df[i] == k;
        assert(grouped(cf)[i] == group_of(cf, k));
    }
}

/// A key that has a play occurs among the plays.
pub proof fn lemma_absent_key_empty_converse(t: Seq<Play>, id: Seq<char>)
    requires
        t.filter(with_key(id)).len() > 0,
    ensures
        keys_of(t).contains(id),
{
    if !keys_of(t).contains(id) {
        lemma_absent_key_empty(t, id);
    }
}

/// A key has a group exactly when it has a play, and the group counts the
/// plays with that key.
pub proof fn lemma_group_of_key(c: Seq<Play>, k: Seq<char>)
    ensures
        (exists|i: int| 0 <= i < grouped(c).len() && #[trigger] grouped(c)[i].id == k) <==> c.filter(
            with_key(k),
        ).len() > 0,
        forall|i: int|
            0 <= i < grouped(c).len() && #[trigger] grouped(c)[i].id == k ==> grouped(c)[i].plays
                == c.filter(with_key(k)).len(),
{
    law_grouping_keys_distinct(c);
    if keys_of(c).contains(k) {
        lemma_present_key_nonempty(c, k);
    } else {
        lemma_absent_key_empty(c, k);
    }
}

/// The first element that passes a filter heads the filtered sequence.
pub proof fn lemma_filter_head<A>(s: Seq<A>, p: spec_fn(A) -> bool)
    requires
        s.filter(p).len() > 0,
    ensures
        exists|k: int|
            0 <= k < s.len() && #[trigger] s[k] == s.filter(p)[0] && p(s[k]) && forall|k2: int|
                0 <= k2 < k ==> !p(#[trigger] s[k2]),
    decreases s.len(),
{
    let t = s.drop_last();
    let x = s.last();
    assert(s =~= t.push(x));
    t.lemma_filter_push(x, p);
    if t.filter(p).len() > 0 {
        lemma_filter_head(t, p);
        let k = choose|k: int|
            0 <= k < t.len() && #[trigger] t[k] == t.filter(p)[0] && p(t[k]) && forall|k2: int|
                0 <= k2 < k ==> !p(#[trigger] t[k2]);
        assert(s[k] == t[k]);
        assert forall|k2: int| 0 <= k2 < k implies !p(#[trigger] s[k2]) by {
            assert(s[k2] == t[k2]);
        }
    } else {
        assert forall|k2: int| 0 <= k2 < t.len() implies !p(#[trigger] s[k2]) by {
            assert(s[k2] == t[k2]);
            if p(t[k2]) {
                t.lemma_filter_contains(p, k2);
            }
        }
        assert(s[t.len() as int] == x);
    }
}

/// Where a group comes from: it counts the plays with its key, one scrobble
/// position per play; a play with its key shows its name and artist and has
/// its first scrobble position, and each of its positions is that of a play
/// with its key.
pub proof fn lemma_group_origin(c: Seq<Play>, i: int)
    requires
        0 <= i < grouped(c).len(),
    ensures
        grouped(c)[i].plays == c.filter(with_key(grouped(c)[i].id)).len(),
        grouped(c)[i].plays == grouped(c)[i].scrobbles.len(),
        grouped(c)[i].plays > 0,
        exists|k: int|
            0 <= k < c.len() && (#[trigger] c[k]).key@ == grouped(c)[i].id && c[k].name@ == grouped(
                c,
            )[i].name && c[k].artist@ == grouped(c)[i].artist && c[k].scrobble == grouped(
                c,
            )[i].scrobbles[0] && forall|k2: int|
                0 <= k2 < k ==> (#[trigger] c[k2]).key@ != grouped(c)[i].id,
        forall|t: int|
            0 <= t < grouped(c)[i].scrobbles.len() ==> exists|k: int|
                0 <= k < c.len() && c[k].key@ == grouped(c)[i].id && c[k].scrobble
                    == #[trigger] grouped(c)[i].scrobbles[t],
{
    let d = first_occurrences(keys_of(c));
    lemma_first_occurrences_contains(keys_of(c));
    let id = d[i];
    assert(d.contains(id));
    lemma_present_key_nonempty(c, id);
    let mine = c.filter(with_key(id));
    let g = grouped(c)[i];
    assert(g == group_of(c, id));
    assert forall|t: int| 0 <= t < mine.len() implies exists|k: int|
        0 <= k < c.len() && #[trigger] c[k] == #[trigger] mine[t] && c[k].key@ == id by {
        c.lemma_filter_pred(with_key(id), t);
        assert(mine.contains(mine[t]));
        c.lemma_filter_contains_rev(with_key(id), mine[t]);
    }
    lemma_filter_head(c, with_key(id));
    assert forall|t: int| 0 <= t < g.scrobbles.len() implies exists|k: int|
        0 <= k < c.len() && c[k].key@ == g.id && c[k].scrobble == #[trigger] g.scrobbles[t] by {
        assert(exists|k: int| 0 <= k < c.len() && #[trigger] c[k] == mine[t] && c[k].key@ == id);
    }
}

/// A statistic made from a group of plays.
pub trait FromPlayGroup: View + Sized {
    /// The statistic's view for a group with view `g`.
    spec fn group_view(g: GroupView) -> Self::V;

    fn from_group(g: PlayGroup) -> (r: Self)
        ensures
            r@ == Self::group_view(g@),
    ;
}

/// The views of the statistics.
pub open spec fn stat_views<T: View>(stats: Seq<T>) -> Seq<T::V> {
    stats.map_values(|t: T| t@)
}

/// The views of the statistics that the groups make.
pub open spec fn group_stat_views<T: FromPlayGroup>(groups: Seq<PlayGroup>) -> Seq<T::V> {
    groups.map_values(|g: PlayGroup| T::group_view(g@))
}

/// The statistics of the groups, in their order.
pub fn stats_from_groups<T: FromPlayGroup>(groups: Vec<PlayGroup>) -> (r: Vec<T>)
    ensures
        stat_views(r@) == group_stat_views::<T>(groups@),
{
    let ghost input = groups@;
    let n = groups.len();
    let mut rest = reversed(groups);
    let mut stats: Vec<T> = Vec::new();
    while rest.len() > 0
        invariant
            stats@.len() + rest@.len() == n,
            n == input.len(),
            forall|i: int| 0 <= i < rest@.len() ==> #[trigger] rest@[i] == input[n - 1 - i],
            stat_views(stats@) == group_stat_views::<T>(input.take(stats@.len() as int)),
        decreases rest.len(),
    {
        let g = rest.pop().unwrap();
        let ghost k = stats@.len() as int;
        assert(g == input[k]);
        assert(input.take(k + 1) =~= input.take(k).push(g));
        let ghost before = stats@;
        stats.push(T::from_group(g));
        assert(stats@ == before.push(stats@[k]));
        assert forall|i: int| 0 <= i <= k implies #[trigger] stat_views(stats@)[i]
            == group_stat_views::<T>(input.take(k + 1))[i] by {
            if i < k {
                assert(stat_views(before)[i] == stat_views(stats@)[i]);
            }
        }
        assert(stat_views(stats@) =~= group_stat_views::<T>(input.take(k + 1)));
    }
    assert(input.take(n as int) =~= input);
    stats
}

/// Groups the plays by key; see [`grouped`].
pub fn group_plays(plays: Vec<Play>) -> (r: Vec<PlayGroup>)
    ensures
        group_views(r@) == grouped(plays@),
{
    let ghost input = plays@;
    let n = plays.len();
    let mut rest = reversed(plays);
    let mut groups: Vec<PlayGroup> = Vec::new();
    let mut p: usize = 0;
    assert(group_views(groups@) =~= grouped(input.take(0)));
    while rest.len() > 0
        invariant
            p + rest@.len() == n,
            n == input.len(),
            forall|i: int| 0 <= i < rest@.len() ==> #[trigger] rest@[i] == input[n - 1 - i],
            group_views(groups@) == grouped(input.take(p as int)),
            forall|i: int| 0 <= i < groups@.len() ==> #[trigger] groups@[i].plays <= p,
        decreases rest.len(),
    {
        let x = rest.pop().unwrap();
        let ghost t = input.take(p as int);
        assert(x == input[p as int]);
        assert(input.take(p + 1) =~= t.push(x));
        proof {
            lemma_first_occurrences_contains(keys_of(t));
        }
        let ghost d = first_occurrences(keys_of(t));
        assert(group_views(groups@).len() == groups@.len());
        assert(grouped(t).len() == d.len());
        assert(forall|i: int| 0 <= i < d.len() ==> #[trigger] grouped(t)[i].id == d[i]);
        assert(forall|i: int| 0 <= i < groups@.len() ==> #[trigger] group_views(groups@)[i] == groups@[i]@);
        assert(groups@.len() == d.len());
        assert forall|i: int| 0 <= i < d.len() implies #[trigger] groups@[i].id@ == d[i] by {
            assert(group_views(groups@)[i] == groups@[i]@);
            assert(grouped(t)[i].id == d[i]);
        }
        let mut j: usize = 0;
        while j < groups.len()
            invariant
                j <= groups@.len(),
                groups@.len() == d.len(),
                group_views(groups@) == grouped(t),
                forall|i: int| 0 <= i < j ==> #[trigger] d[i] != x.key@,
                forall|i: int| 0 <= i < d.len() ==> #[trigger] groups@[i].id@ == d[i],
            ensures
                j <= groups@.len(),
                j < groups@.len() ==> d[j as int] == x.key@,
                forall|i: int| 0 <= i < j ==> #[trigger] d[i] != x.key@,
            decreases groups@.len() - j,
        {
            if groups[j].id == x.key {
                break;
            }
            j = j + 1;
        }
        if j < groups.len() {
            proof {
                lemma_grouped_push_existing(t, x, j as int);
            }
            let mut g = PlayGroup {
                id: String::new(),
                name: String::new(),
                artist: String::new(),
                plays: 0,
                scrobbles: Vec::new(),
            };
            groups.set_and_swap(j, &mut g);
            assert(g@ == grouped(t)[j as int]);
            g.plays = g.plays + 1;
            g.scrobbles.push(x.scrobble);
            groups.set_and_swap(j, &mut g);
            assert(group_views(groups@) =~= grouped(t.push(x)));
        } else {
            assert(!d.contains(x.key@));
            proof {
                lemma_grouped_push_new(t, x);
            }
            let mut scrobbles: Vec<usize> = Vec::new();
            scrobbles.push(x.scrobble);
            groups.push(PlayGroup { id: x.key, name: x.name, artist: x.artist, plays: 1, scrobbles });
            assert(group_views(groups@) =~= grouped(t.push(x)));
        }
        p = p + 1;
    }
    assert(input.take(n as int) =~= input);
    groups
}

} // verus!
