//! What the program does when a monitor raises the alarm: the plan for
//! closing the encrypted volumes, read from `dmsetup ls` and `/proc/mounts`.
use vstd::prelude::*;
use vstd::string::*;
use crate::text::{ascii_tokens, contains_str, contains_text, lines_of, str_lines, tokens, views};

verus! {

/// Whether each line has more than `k` tokens.
pub open spec fn each_has_tokens(lines: Seq<Seq<char>>, k: nat) -> bool {
    forall|i: int| 0 <= i < lines.len() ==> #[trigger] ascii_tokens(lines[i]).len() > k
}

/// The first token of each line.
pub open spec fn first_tokens(lines: Seq<Seq<char>>) -> Seq<Seq<char>> {
    lines.map_values(|l: Seq<char>| ascii_tokens(l)[0])
}

/// The lines that mention `volume`.
pub open spec fn lines_mentioning(lines: Seq<Seq<char>>, volume: Seq<char>) -> Seq<Seq<char>>
    decreases lines.len(),
{
    if lines.len() == 0 {
        Seq::empty()
    } else if contains_text(lines.last(), volume) {
        lines_mentioning(lines.drop_last(), volume).push(lines.last())
    } else {
        lines_mentioning(lines.drop_last(), volume)
    }
}

/// Law: the lines that mention a volume are exactly the lines in which its
/// name occurs, in their order.
pub proof fn law_lines_mentioning_filters(lines: Seq<Seq<char>>, volume: Seq<char>)
    ensures
        lines_mentioning(lines, volume) == lines.filter(|l: Seq<char>| contains_text(l, volume)),
    decreases lines.len(),
{
    reveal(Seq::filter);
    if lines.len() > 0 {
        law_lines_mentioning_filters(lines.drop_last(), volume);
    }
}

/// The second token of each line.
pub open spec fn second_tokens(lines: Seq<Seq<char>>) -> Seq<Seq<char>> {
    lines.map_values(|l: Seq<char>| ascii_tokens(l)[1])
}

/// Whether every line of a `dmsetup ls` listing names a volume; where one does
/// not, the volumes cannot be told.
pub fn dmsetup_listing_complete(listing: &str) -> (b: bool)
    ensures
        b == each_has_tokens(str_lines(listing@), 0),
{
    let lines = lines_of(listing);
    let n = lines.len();
    let mut i: usize = 0;
    while i < n
        invariant
            n == lines@.len(),
            views(lines@) == str_lines(listing@),
            i <= n,
            forall|k: int| 0 <= k < i ==> #[trigger] ascii_tokens(str_lines(listing@)[k]).len() > 0,
        decreases n - i,
    {
        let t = tokens(lines[i].as_str());
        assert(views(lines@)[i as int] == lines@[i as int]@);
        if t.len() == 0 {
            assert(ascii_tokens(str_lines(listing@)[i as int]).len() == 0);
            return false;
        }
        i = i + 1;
    }
    true
}

/// The volumes of a `dmsetup ls` listing: the first word of each line.
pub fn luks_volume_names(listing: &str) -> (volumes: Vec<String>)
    requires
        each_has_tokens(str_lines(listing@), 0),
    ensures
        views(volumes@) == first_tokens(str_lines(listing@)),
{
    let lines = lines_of(listing);
    let n = lines.len();
    let mut volumes: Vec<String> = Vec::new();
    let mut i: usize = 0;
    while i < n
        invariant
            n == lines@.len(),
            views(lines@) == str_lines(listing@),
            each_has_tokens(str_lines(listing@), 0),
            i <= n,
            views(volumes@) == first_tokens(str_lines(listing@)).take(i as int),
        decreases n - i,
    {
        let t = tokens(lines[i].as_str());
        assert(views(lines@)[i as int] == lines@[i as int]@);
        assert(ascii_tokens(str_lines(listing@)[i as int]).len() > 0);
        assert(views(t@)[0] == t@[0]@);
        let ghost old_views = views(volumes@);
        volumes.push(t[0].clone());
        assert(views(volumes@) =~= old_views.push(t@[0]@));
        assert(first_tokens(str_lines(listing@)).take(i + 1) =~= first_tokens(str_lines(listing@)).take(i as int).push(t@[0]@));
        i = i + 1;
    }
    assert(first_tokens(str_lines(listing@)).take(n as int) =~= first_tokens(str_lines(listing@)));
    volumes
}

/// Whether every line of `mounts` that mentions `volume` has a mount point.
pub fn mounts_listing_complete(mounts: &str, volume: &str) -> (b: bool)
    ensures
        b == each_has_tokens(lines_mentioning(str_lines(mounts@), volume@), 1),
{
    let lines = lines_of(mounts);
    let n = lines.len();
    let mut i: usize = 0;
    let ghost all = str_lines(mounts@);
    while i < n
        invariant
            n == lines@.len(),
            views(lines@) == all,
            all == str_lines(mounts@),
            i <= n,
            each_has_tokens(lines_mentioning(all.take(i as int), volume@), 1),
        decreases n - i,
    {
        let ghost pre = all.take(i + 1);
        assert(pre.drop_last() =~= all.take(i as int));
        assert(pre.last() == lines@[i as int]@);
        if contains_str(lines[i].as_str(), volume) {
            let t = tokens(lines[i].as_str());
            let ghost m = lines_mentioning(all.take(i as int), volume@);
            assert(lines_mentioning(pre, volume@) == m.push(pre.last()));
            if t.len() < 2 {
                assert(lines_mentioning(pre, volume@)[m.len() as int] == pre.last());
                assert(ascii_tokens(pre.last()).len() == views(t@).len());
                assert(!(ascii_tokens(lines_mentioning(pre, volume@)[m.len() as int]).len() > 1));
                assert(!each_has_tokens(lines_mentioning(pre, volume@), 1));
                proof { lemma_mentioning_prefix(all, i + 1, volume@); }
                return false;
            }
            assert forall|k: int| 0 <= k < m.len() + 1 implies #[trigger] ascii_tokens(lines_mentioning(pre, volume@)[k]).len() > 1 by {
                if k < m.len() {
                    assert(lines_mentioning(pre, volume@)[k] == m[k]);
                }
            }
        }
        i = i + 1;
    }
    assert(all.take(n as int) =~= all);
    true
}

/// The lines that mention `volume` in a prefix of `lines` come first among
/// those in all of `lines`; where one of them lacks a second token, so does
/// the whole.
pub proof fn lemma_mentioning_prefix(lines: Seq<Seq<char>>, k: int, volume: Seq<char>)
    requires
        0 <= k <= lines.len(),
        !each_has_tokens(lines_mentioning(lines.take(k), volume), 1),
    ensures
        !each_has_tokens(lines_mentioning(lines, volume), 1),
    decreases lines.len() - k,
{
    if k == lines.len() {
        assert(lines.take(k) =~= lines);
    } else {
        let pre = lines.take(k + 1);
        assert(pre.drop_last() =~= lines.take(k));
        let m = lines_mentioning(lines.take(k), volume);
        let j = choose|j: int| 0 <= j < m.len() && !(ascii_tokens(m[j]).len() > 1);
        if contains_text(pre.last(), volume) {
            assert(lines_mentioning(pre, volume)[j] == m[j]);
        } else {
            assert(lines_mentioning(pre, volume) == m);
        }
        assert(!each_has_tokens(lines_mentioning(pre, volume), 1));
        lemma_mentioning_prefix(lines, k + 1, volume);
    }
}

/// The mount points of `volume` in `mounts`: the second word of each line
/// that mentions the volume.
pub fn mount_points_of(mounts: &str, volume: &str) -> (points: Vec<String>)
    requires
        each_has_tokens(lines_mentioning(str_lines(mounts@), volume@), 1),
    ensures
        views(points@) == second_tokens(lines_mentioning(str_lines(mounts@), volume@)),
{
    let lines = lines_of(mounts);
    let n = lines.len();
    let mut points: Vec<String> = Vec::new();
    let mut i: usize = 0;
    let ghost all = str_lines(mounts@);
    while i < n
        invariant
            n == lines@.len(),
            views(lines@) == all,
            all == str_lines(mounts@),
            each_has_tokens(lines_mentioning(all, volume@), 1),
            i <= n,
            views(points@) == second_tokens(lines_mentioning(all.take(i as int), volume@)),
        decreases n - i,
    {
        let ghost pre = all.take(i + 1);
        assert(pre.drop_last() =~= all.take(i as int));
        assert(pre.last() == lines@[i as int]@);
        let ghost m = lines_mentioning(all.take(i as int), volume@);
        if contains_str(lines[i].as_str(), volume) {
            assert(lines_mentioning(pre, volume@) == m.push(pre.last()));
            proof { lemma_mentioning_tokens(all, i + 1, volume@); }
            assert(lines_mentioning(pre, volume@)[m.len() as int] == pre.last());
            let t = tokens(lines[i].as_str());
            assert(ascii_tokens(lines_mentioning(pre, volume@)[m.len() as int]).len() > 1);
            assert(views(t@).len() == t@.len());
            assert(views(t@)[1] == t@[1]@);
            let ghost old_views = views(points@);
            points.push(t[1].clone());
            assert(views(points@) =~= old_views.push(t@[1]@));
            assert(second_tokens(lines_mentioning(pre, volume@)) =~= second_tokens(m).push(t@[1]@));
        } else {
            assert(lines_mentioning(pre, volume@) == m);
        }
        i = i + 1;
    }
    assert(all.take(n as int) =~= all);
    points
}

/// Where every line of `lines` that mentions `volume` has a second token, so
/// does every such line of a prefix.
pub proof fn lemma_mentioning_tokens(lines: Seq<Seq<char>>, k: int, volume: Seq<char>)
    requires
        0 <= k <= lines.len(),
        each_has_tokens(lines_mentioning(lines, volume), 1),
    ensures
        each_has_tokens(lines_mentioning(lines.take(k), volume), 1),
{
    if !each_has_tokens(lines_mentioning(lines.take(k), volume), 1) {
        lemma_mentioning_prefix(lines, k, volume);
    }
}

} // verus!
