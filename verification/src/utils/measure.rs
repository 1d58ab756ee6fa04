//! Runs of clusters: where a word or a separator ends, how many columns a
//! stretch of text takes, and how much of it fits into a given room.

use super::cluster::Segmented;
use vstd::prelude::*;

verus! {

/// The kind of clusters that a run is made of.
#[derive(Clone, Copy, Debug, PartialEq, Eq, Structural)]
pub enum Kind {
    /// Separators: what stands between two words.
    Separator,
    /// Clusters that are no separators: a word.
    Word,
    /// Every cluster: the run goes to the end of the text.
    Any,
}

impl Kind {
    /// Whether a cluster belongs to a run of this kind, given whether the
    /// cluster is blank.
    pub open spec fn takes(self, blank: bool) -> bool {
        match self {
            Kind::Separator => blank,
            Kind::Word => !blank,
            Kind::Any => true,
        }
    }

    /// Whether a cluster belongs to a run of this kind.
    pub fn accepts(self, blank: bool) -> (taken: bool)
        ensures
            taken == self.takes(blank),
    {
        match self {
            Kind::Separator => blank,
            Kind::Word => !blank,
            Kind::Any => true,
        }
    }
}

/// Whether going from cluster to cluster, starting at `from`, arrives at
/// `to`.
pub open spec fn reaches<S: Segmented>(s: &S, from: int, to: int) -> bool
    decreases to - from,
{
    if from == to {
        true
    } else {
        let next = s.after(from);
        from < next <= to && reaches(s, next, to)
    }
}

/// The columns taken by the clusters that start at `from` or behind it and
/// end at `to` or before it: the sum of their widths.
pub open spec fn width_between<S: Segmented>(s: &S, from: int, to: int) -> nat
    decreases to - from,
{
    let next = s.after(from);
    if from < next <= to {
        s.width_at(from) + width_between(s, next, to)
    } else {
        0
    }
}

/// The columns that a whole text takes: the sum of the widths of its
/// clusters.
pub open spec fn text_width<S: Segmented>(s: &S) -> nat {
    width_between(s, 0, s.extent())
}

/// The end of the longest run of clusters of one kind that starts at
/// `from`. It is `from` itself where the cluster there is of another kind,
/// or where the text ends.
pub open spec fn run_end<S: Segmented>(s: &S, from: int, kind: Kind) -> int
    decreases s.extent() - from,
{
    let next = s.after(from);
    if 0 <= from < next <= s.extent() && kind.takes(s.blank_at(from)) {
        run_end(s, next, kind)
    } else {
        from
    }
}

/// How far one gets from `from`, cluster by cluster, without passing `limit`
/// and without taking more than `room` columns.
pub open spec fn fitting_end<S: Segmented>(s: &S, from: int, limit: int, room: nat) -> int
    decreases limit - from,
{
    let next = s.after(from);
    if from < next <= limit && s.width_at(from) <= room {
        fitting_end(s, next, limit, (room - s.width_at(from)) as nat)
    } else {
        from
    }
}

/// Two stretches that meet add up.
pub proof fn lemma_reaches_trans<S: Segmented>(s: &S, from: int, mid: int, to: int)
    requires
        reaches(s, from, mid),
        reaches(s, mid, to),
    ensures
        reaches(s, from, to),
        from <= mid <= to,
    decreases mid - from,
{
    lemma_reaches_order(s, mid, to);
    if from != mid {
        lemma_reaches_trans(s, s.after(from), mid, to);
    }
}

/// What is reached lies behind the start.
pub proof fn lemma_reaches_order<S: Segmented>(s: &S, from: int, to: int)
    requires
        reaches(s, from, to),
    ensures
        from <= to,
    decreases to - from,
{
    if from != to {
        lemma_reaches_order(s, s.after(from), to);
    }
}

/// What is reached from a position of the text is a position of the text.
pub proof fn lemma_reaches_position<S: Segmented>(s: &S, from: int, to: int)
    requires
        s.is_position(from),
        reaches(s, from, to),
        to <= s.extent(),
    ensures
        s.is_position(to),
    decreases to - from,
{
    if from != to {
        s.lemma_after(from);
        lemma_reaches_position(s, s.after(from), to);
    }
}

/// The width of a stretch is the width up to a place that is reached inside
/// it plus the width from there on.
pub proof fn lemma_width_split<S: Segmented>(s: &S, from: int, mid: int, to: int)
    requires
        reaches(s, from, mid),
        mid <= to,
    ensures
        width_between(s, from, to) == width_between(s, from, mid) + width_between(
            s,
            mid,
            to,
        ),
    decreases mid - from,
{
    if from != mid {
        let next = s.after(from);
        lemma_reaches_order(s, next, mid);
        lemma_width_split(s, next, mid, to);
    }
}

/// A wider stretch from the same start takes at least as many columns.
pub proof fn lemma_width_grows<S: Segmented>(s: &S, from: int, mid: int, to: int)
    requires
        reaches(s, from, mid),
        mid <= to,
    ensures
        width_between(s, from, mid) <= width_between(s, from, to),
{
    lemma_width_split(s, from, mid, to);
}

/// A run ends at a position that is reached from its start; the cluster
/// behind it, if there is one, is of another kind.
pub proof fn lemma_run_end<S: Segmented>(s: &S, from: int, kind: Kind)
    requires
        s.is_position(from),
    ensures
        from <= run_end(s, from, kind) <= s.extent(),
        s.is_position(run_end(s, from, kind)),
        reaches(s, from, run_end(s, from, kind)),
        run_end(s, from, kind) < s.extent() ==> !kind.takes(
            s.blank_at(run_end(s, from, kind)),
        ),
        run_end(s, run_end(s, from, kind), kind) == run_end(s, from, kind),
    decreases s.extent() - from,
{
    let next = s.after(from);
    s.lemma_after(from);
    if from < s.extent() && kind.takes(s.blank_at(from)) {
        lemma_run_end(s, next, kind);
    }
}

/// A run of every kind of cluster ends where the text ends.
pub proof fn lemma_run_end_any<S: Segmented>(s: &S, from: int)
    requires
        s.is_position(from),
    ensures
        run_end(s, from, Kind::Any) == s.extent(),
    decreases s.extent() - from,
{
    s.lemma_after(from);
    if from < s.extent() {
        lemma_run_end_any(s, s.after(from));
    }
}

/// What `fitting_end` gives is reached from the start, lies before the
/// limit, fits into the room, and cannot be moved on by one cluster.
pub proof fn lemma_fitting_end<S: Segmented>(s: &S, from: int, limit: int, room: nat)
    requires
        from <= limit,
    ensures
        from <= fitting_end(s, from, limit, room) <= limit,
        reaches(s, from, fitting_end(s, from, limit, room)),
        width_between(s, from, fitting_end(s, from, limit, room)) <= room,
        ({
            let end = fitting_end(s, from, limit, room);
            let next = s.after(end);
            end < next <= limit ==> width_between(s, from, next) > room
        }),
    decreases limit - from,
{
    let next = s.after(from);
    if from < next <= limit && s.width_at(from) <= room {
        let rest = (room - s.width_at(from)) as nat;
        lemma_fitting_end(s, next, limit, rest);
        let end = fitting_end(s, next, limit, rest);
        lemma_reaches_order(s, next, end);
        let after = s.after(end);
        if end < after <= limit {
            assert(width_between(s, from, after) == s.width_at(from) + width_between(
                s,
                next,
                after,
            ));
        }
    }
}

/// The limit itself is reached exactly when the whole stretch fits.
pub proof fn lemma_fitting_whole<S: Segmented>(s: &S, from: int, limit: int, room: nat)
    requires
        reaches(s, from, limit),
    ensures
        fitting_end(s, from, limit, room) == limit <==> width_between(s, from, limit)
            <= room,
    decreases limit - from,
{
    if from != limit {
        let next = s.after(from);
        lemma_reaches_order(s, next, limit);
        if s.width_at(from) <= room {
            lemma_fitting_whole(s, next, limit, (room - s.width_at(from)) as nat);
        } else {
            assert(fitting_end(s, from, limit, room) == from);
        }
    }
}

/// What is reached stays reached one cluster further.
pub proof fn lemma_reaches_step<S: Segmented>(s: &S, from: int, pos: int)
    requires
        reaches(s, from, pos),
        pos < s.after(pos),
    ensures
        reaches(s, from, s.after(pos)),
{
    let next = s.after(pos);
    assert(reaches(s, next, next));
    assert(reaches(s, pos, next));
    lemma_reaches_trans(s, from, pos, next);
}

/// A run of clusters of one kind, read as far as the room allowed.
#[derive(Clone, Copy, Debug)]
pub struct Run {
    /// Position behind the last cluster that was taken.
    pub end: usize,
    /// Columns that the clusters taken fill.
    pub width: usize,
    /// Whether the run was taken to its end: `false` where the next cluster
    /// of the run did not fit into the room.
    pub whole: bool,
    /// Whether the run was taken to its end and a cluster of another kind
    /// follows it: for a word, whether a separator follows.
    pub followed: bool,
}

/// Finds the end of the run of clusters of one kind that starts at `from`.
pub fn find_run_end<S: Segmented>(source: &S, from: usize, kind: Kind) -> (end: usize)
    requires
        source.is_position(from as int),
    ensures
        end == run_end(source, from as int, kind),
        from <= end <= source.extent(),
        source.is_position(end as int),
{
    let len = source.reach();
    let mut pos = from;
    proof {
        lemma_run_end(source, from as int, kind);
    }
    while pos < len
        invariant
            len == source.extent(),
            from <= pos <= len,
            source.is_position(pos as int),
            run_end(source, pos as int, kind) == run_end(source, from as int, kind),
        decreases len - pos,
    {
        let cluster = source.read(pos);
        proof {
            source.lemma_after(pos as int);
        }
        if !kind.accepts(cluster.blank) {
            return pos;
        }
        pos = cluster.end;
    }
    pos
}

/// Takes clusters of one kind from `from` on, as long as they fit into
/// `room` columns together.
///
/// The run ends before the first cluster of another kind, or at the end of
/// the text. Where the next cluster of the run would take the width over
/// `room`, reading stops in front of it, and `whole` is `false`: this is the
/// case exactly when the run is wider than `room`. A run with `kind` as
/// `Kind::Word` is a token of the text: its span, its width, and whether a
/// separator follows it.
pub fn take_run<S: Segmented>(source: &S, from: usize, room: usize, kind: Kind) -> (run: Run)
    requires
        source.is_position(from as int),
    ensures
        run.end == fitting_end(
            source,
            from as int,
            run_end(source, from as int, kind),
            room as nat,
        ),
        run.width == width_between(source, from as int, run.end as int),
        run.width <= room,
        run.whole == (run.end == run_end(source, from as int, kind)),
        run.whole == (width_between(source, from as int, run_end(source, from as int, kind))
            <= room),
        run.followed == (run.whole && run.end < source.extent()),
        from <= run.end <= run_end(source, from as int, kind),
        reaches(source, from as int, run.end as int),
        source.is_position(run.end as int),
{
    let len = source.reach();
    let mut pos = from;
    let mut used: usize = 0;
    let ghost limit = run_end(source, from as int, kind);
    proof {
        lemma_run_end(source, from as int, kind);
        lemma_fitting_whole(source, from as int, limit, room as nat);
    }
    while pos < len
        invariant
            len == source.extent(),
            limit == run_end(source, from as int, kind),
            from <= pos <= limit <= len,
            source.is_position(pos as int),
            used <= room,
            reaches(source, from as int, pos as int),
            used == width_between(source, from as int, pos as int),
            run_end(source, pos as int, kind) == limit,
            fitting_end(source, pos as int, limit, (room - used) as nat) == fitting_end(
                source,
                from as int,
                limit,
                room as nat,
            ),
            (fitting_end(source, from as int, limit, room as nat) == limit) == (width_between(
                source,
                from as int,
                limit,
            ) <= room),
        decreases len - pos,
    {
        let cluster = source.read(pos);
        proof {
            source.lemma_after(pos as int);
        }
        if !kind.accepts(cluster.blank) {
            return Run { end: pos, width: used, whole: true, followed: true };
        }
        proof {
            lemma_run_end(source, cluster.end as int, kind);
        }
        if cluster.width > room - used {
            return Run { end: pos, width: used, whole: false, followed: false };
        }
        proof {
            lemma_reaches_step(source, from as int, pos as int);
            lemma_width_split(source, from as int, pos as int, cluster.end as int);
            assert(width_between(source, cluster.end as int, cluster.end as int) == 0);
        }
        used = used + cluster.width;
        pos = cluster.end;
    }
    Run { end: pos, width: used, whole: true, followed: false }
}

} // verus!
