//! The longest trail through a set of lines: the most lines that a walk can
//! follow, end to end, using each line at most once. Road and boat lengths
//! are scored by it.
use crate::element::{Coordinate, Line};
use vstd::prelude::*;

verus! {

/// How many lines are not yet used.
pub open spec fn unused(visited: Seq<bool>) -> nat
    decreases visited.len(),
{
    if visited.len() == 0 {
        0
    } else {
        unused(visited.drop_last()) + if visited.last() {
            0nat
        } else {
            1nat
        }
    }
}

pub proof fn lemma_unused_bound(visited: Seq<bool>)
    ensures
        unused(visited) <= visited.len(),
    decreases visited.len(),
{
    if visited.len() > 0 {
        lemma_unused_bound(visited.drop_last());
    }
}

/// Using one more line leaves one line fewer unused.
pub proof fn lemma_unused_mark(visited: Seq<bool>, i: int)
    requires
        0 <= i < visited.len(),
        !visited[i],
    ensures
        unused(visited.update(i, true)) + 1 == unused(visited),
    decreases visited.len(),
{
    let v2 = visited.update(i, true);
    if i == visited.len() - 1 {
        assert(v2.drop_last() =~= visited.drop_last());
    } else {
        assert(v2.drop_last() =~= visited.drop_last().update(i, true));
        lemma_unused_mark(visited.drop_last(), i);
    }
}

/// The longest trail over the lines not yet `visited`, starting anywhere
/// when `current` is `None`, else at the point `current`.
pub open spec fn trail_len(lines: Seq<Line>, visited: Seq<bool>, current: Option<Coordinate>) -> nat
    decreases unused(visited), lines.len() + 1,
{
    trail_from(lines, visited, current, 0)
}

/// The longest trail, as `trail_len`, whose first line is among
/// `lines[i..]`.
pub open spec fn trail_from(
    lines: Seq<Line>,
    visited: Seq<bool>,
    current: Option<Coordinate>,
    i: int,
) -> nat
    decreases unused(visited), lines.len() - i,
{
    if i < 0 || i >= lines.len() || visited.len() != lines.len() {
        0
    } else {
        let rest = trail_from(lines, visited, current, i + 1);
        let here: nat = if visited[i] {
            0
        } else {
            let v2 = visited.update(i, true);
            proof {
                lemma_unused_mark(visited, i);
            }
            match current {
                None => {
                    let a = trail_len(lines, v2, Some(lines[i].start));
                    let b = trail_len(lines, v2, Some(lines[i].end));
                    1 + if a >= b {
                        a
                    } else {
                        b
                    }
                },
                Some(c) => {
                    if lines[i].end == c {
                        1 + trail_len(lines, v2, Some(lines[i].start))
                    } else if lines[i].start == c {
                        1 + trail_len(lines, v2, Some(lines[i].end))
                    } else {
                        0
                    }
                },
            }
        };
        if here > rest {
            here
        } else {
            rest
        }
    }
}

/// A trail never uses more lines than there are unused.
pub proof fn lemma_trail_bound(lines: Seq<Line>, visited: Seq<bool>, current: Option<Coordinate>)
    ensures
        trail_len(lines, visited, current) <= unused(visited),
    decreases unused(visited), lines.len() + 1,
{
    lemma_trail_from_bound(lines, visited, current, 0);
}

pub proof fn lemma_trail_from_bound(
    lines: Seq<Line>,
    visited: Seq<bool>,
    current: Option<Coordinate>,
    i: int,
)
    ensures
        trail_from(lines, visited, current, i) <= unused(visited),
    decreases unused(visited), lines.len() - i,
{
    if i < 0 || i >= lines.len() || visited.len() != lines.len() {
    } else {
        lemma_trail_from_bound(lines, visited, current, i + 1);
        if !visited[i] {
            let v2 = visited.update(i, true);
            lemma_unused_mark(visited, i);
            lemma_trail_bound(lines, v2, Some(lines[i].start));
            lemma_trail_bound(lines, v2, Some(lines[i].end));
        }
    }
}

/// Line `l` joins the points `a` and `b`, either way round.
pub open spec fn joins(l: Line, a: Coordinate, b: Coordinate) -> bool {
    (l.start == a && l.end == b) || (l.end == a && l.start == b)
}

/// `steps` is a trail over the lines not marked in `visited`: the lines
/// `lines[steps[k]]`, each used once, walked through the points `stops`
/// (line `k` joins `stops[k]` and `stops[k + 1]`), starting at `current`
/// where it is given.
pub open spec fn is_trail(
    lines: Seq<Line>,
    visited: Seq<bool>,
    current: Option<Coordinate>,
    steps: Seq<int>,
    stops: Seq<Coordinate>,
) -> bool {
    &&& stops.len() == steps.len() + 1
    &&& steps.no_duplicates()
    &&& forall|k: int|
        0 <= k < steps.len() ==> 0 <= #[trigger] steps[k] < lines.len() && !visited[steps[k]] && joins(
            lines[steps[k]],
            stops[k],
            stops[k + 1],
        )
    &&& current matches Some(c) ==> stops[0] == c
}

/// A trail that starts with line `i` goes on as a trail from its second
/// point, with line `i` used.
proof fn lemma_trail_tail(
    lines: Seq<Line>,
    visited: Seq<bool>,
    current: Option<Coordinate>,
    steps: Seq<int>,
    stops: Seq<Coordinate>,
)
    requires
        is_trail(lines, visited, current, steps, stops),
        steps.len() > 0,
        visited.len() == lines.len(),
    ensures
        is_trail(
            lines,
            visited.update(steps[0], true),
            Some(stops[1]),
            steps.drop_first(),
            stops.drop_first(),
        ),
{
    let v2 = visited.update(steps[0], true);
    assert forall|k: int| 0 <= k < steps.drop_first().len() implies 0 <= #[trigger] steps.drop_first()[k]
        < lines.len() && !v2[steps.drop_first()[k]] && joins(
        lines[steps.drop_first()[k]],
        stops.drop_first()[k],
        stops.drop_first()[k + 1],
    ) by {
        assert(steps.drop_first()[k] == steps[k + 1]);
        assert(steps[k + 1] != steps[0]);
        assert(!visited[steps[k + 1]]);
    }
}

/// Each line's candidate is at most the best from any earlier index on.
proof fn lemma_trail_from_covers(
    lines: Seq<Line>,
    visited: Seq<bool>,
    current: Option<Coordinate>,
    j: int,
    i: int,
)
    requires
        0 <= j <= i < lines.len(),
        visited.len() == lines.len(),
    ensures
        trail_from(lines, visited, current, j) >= trail_from(lines, visited, current, i),
    decreases i - j,
{
    if j < i {
        lemma_trail_from_covers(lines, visited, current, j + 1, i);
    }
}

/// No trail is longer than `trail_len`.
proof fn lemma_no_longer_trail(
    lines: Seq<Line>,
    visited: Seq<bool>,
    current: Option<Coordinate>,
    steps: Seq<int>,
    stops: Seq<Coordinate>,
)
    requires
        is_trail(lines, visited, current, steps, stops),
        visited.len() == lines.len(),
    ensures
        steps.len() <= trail_len(lines, visited, current),
    decreases steps.len(),
{
    if steps.len() > 0 {
        let i = steps[0];
        let v2 = visited.update(i, true);
        lemma_trail_tail(lines, visited, current, steps, stops);
        lemma_no_longer_trail(lines, v2, Some(stops[1]), steps.drop_first(), stops.drop_first());
        lemma_trail_from_covers(lines, visited, current, 0, i);
        assert(joins(lines[i], stops[0], stops[1]));
        assert(trail_from(lines, visited, current, i) >= 1 + trail_len(lines, v2, Some(stops[1])));
    }
}

/// Some trail is as long as `trail_from` says, and uses its first line
/// among `lines[i..]`.
proof fn lemma_trail_from_reached(lines: Seq<Line>, visited: Seq<bool>, current: Option<Coordinate>, i: int) -> (t: (
    Seq<int>,
    Seq<Coordinate>,
))
    requires
        visited.len() == lines.len(),
        0 <= i,
    ensures
        is_trail(lines, visited, current, t.0, t.1),
        t.0.len() == trail_from(lines, visited, current, i),
    decreases unused(visited), lines.len() - i,
{
    let empty = (Seq::<int>::empty(), seq![
        match current {
            Some(c) => c,
            None => Coordinate { x: 0, y: 0 },
        },
    ]);
    if i >= lines.len() {
        empty
    } else {
        let rest = trail_from(lines, visited, current, i + 1);
        if visited[i] {
            lemma_trail_from_reached(lines, visited, current, i + 1)
        } else {
            let v2 = visited.update(i, true);
            lemma_unused_mark(visited, i);
            let l = lines[i];
            let (first, next): (Coordinate, Option<Coordinate>) = match current {
                None => {
                    if trail_len(lines, v2, Some(l.start)) >= trail_len(lines, v2, Some(l.end)) {
                        (l.end, Some(l.start))
                    } else {
                        (l.start, Some(l.end))
                    }
                },
                Some(c) => {
                    if l.end == c {
                        (c, Some(l.start))
                    } else if l.start == c {
                        (c, Some(l.end))
                    } else {
                        (c, None)
                    }
                },
            };
            match next {
                None => lemma_trail_from_reached(lines, visited, current, i + 1),
                Some(n) => {
                    let here = 1 + trail_len(lines, v2, next);
                    if here <= rest {
                        lemma_trail_from_reached(lines, visited, current, i + 1)
                    } else {
                        let (steps, stops) = lemma_trail_len_reached(lines, v2, next);
                        let steps2 = seq![i].add(steps);
                        let stops2 = seq![first].add(stops);
                        assert forall|k: int| 0 <= k < steps2.len() implies 0 <= #[trigger] steps2[k]
                            < lines.len() && !visited[steps2[k]] && joins(
                            lines[steps2[k]],
                            stops2[k],
                            stops2[k + 1],
                        ) by {
                            if k > 0 {
                                assert(steps2[k] == steps[k - 1]);
                                assert(stops2[k] == stops[k - 1]);
                                assert(stops2[k + 1] == stops[k]);
                                assert(!v2[steps[k - 1]]);
                            } else {
                                assert(stops2[1] == stops[0]);
                            }
                        }
                        assert forall|a: int, b: int| 0 <= a < b < steps2.len() implies steps2[a] != steps2[b] by {
                            if a == 0 {
                                assert(steps2[b] == steps[b - 1]);
                                assert(!v2[steps[b - 1]]);
                            } else {
                                assert(steps2[a] == steps[a - 1]);
                                assert(steps2[b] == steps[b - 1]);
                            }
                        }
                        (steps2, stops2)
                    }
                },
            }
        }
    }
}

/// Some trail is as long as `trail_len` says.
proof fn lemma_trail_len_reached(lines: Seq<Line>, visited: Seq<bool>, current: Option<Coordinate>) -> (t: (
    Seq<int>,
    Seq<Coordinate>,
))
    requires
        visited.len() == lines.len(),
    ensures
        is_trail(lines, visited, current, t.0, t.1),
        t.0.len() == trail_len(lines, visited, current),
    decreases unused(visited), lines.len() + 1,
{
    lemma_trail_from_reached(lines, visited, current, 0)
}

/// `trail_len` is the length of the longest trail: some trail over the
/// unused lines, from `current` where it is given, uses that many lines,
/// and none uses more.
pub proof fn lemma_trail_len_is_longest(lines: Seq<Line>, visited: Seq<bool>, current: Option<Coordinate>)
    requires
        visited.len() == lines.len(),
    ensures
        exists|steps: Seq<int>, stops: Seq<Coordinate>|
            is_trail(lines, visited, current, steps, stops) && steps.len() == trail_len(lines, visited, current),
        forall|steps: Seq<int>, stops: Seq<Coordinate>|
            #[trigger] is_trail(lines, visited, current, steps, stops) ==> steps.len() <= trail_len(
                lines,
                visited,
                current,
            ),
{
    let (steps, stops) = lemma_trail_len_reached(lines, visited, current);
    assert(is_trail(lines, visited, current, steps, stops));
    assert forall|steps: Seq<int>, stops: Seq<Coordinate>|
        #[trigger] is_trail(lines, visited, current, steps, stops) implies steps.len() <= trail_len(
            lines,
            visited,
            current,
        ) by {
        lemma_no_longer_trail(lines, visited, current, steps, stops);
    }
}

/// The length of the longest trail over the lines not marked in `visited`
/// (whose entries past the lines are not looked at), from `current` (or
/// from anywhere). `visited` is handed back as it came.
pub fn longest_trail(lines: &Vec<Line>, visited: &mut Vec<bool>, current: Option<Coordinate>) -> (longest: usize)
    requires
        old(visited).len() >= lines.len(),
    ensures
        final(visited)@ == old(visited)@,
        longest == trail_len(lines@, old(visited)@.take(lines.len() as int), current),
    decreases unused(old(visited)@.take(lines.len() as int)),
{
    let ghost v0 = visited@;
    let n = lines.len();
    let ghost vp = v0.take(n as int);
    let mut longest: usize = 0;
    proof {
        lemma_unused_bound(vp);
    }
    let mut i: usize = 0;
    while i < n
        invariant
            n == lines.len(),
            i <= n,
            visited@ == v0,
            v0 == old(visited)@,
            vp == v0.take(n as int),
            v0.len() >= n,
            vp.len() == n,
            unused(vp) <= n,
            longest <= unused(vp),
            (if longest >= trail_from(lines@, vp, current, i as int) {
                longest as nat
            } else {
                trail_from(lines@, vp, current, i as int)
            }) == trail_from(lines@, vp, current, 0),
        decreases n - i,
    {
        proof {
            lemma_trail_from_bound(lines@, vp, current, i as int + 1);
        }
        if !visited[i] {
            proof {
                lemma_unused_mark(vp, i as int);
            }
            visited[i] = true;
            let ghost v2 = visited@;
            let ghost vp2 = vp.update(i as int, true);
            assert(v2.take(n as int) =~= vp2);
            assert(unused(vp2) < unused(vp));
            let line = lines[i];
            let length: Option<usize> = match current {
                None => {
                    assert(visited@ == v2);
                    let a = longest_trail(lines, visited, Some(line.start));
                    assert(visited@ == v2);
                    let b = longest_trail(lines, visited, Some(line.end));
                    proof {
                        lemma_trail_bound(lines@, vp2, Some(line.start));
                        lemma_trail_bound(lines@, vp2, Some(line.end));
                    }
                    Some(
                        1 + if a >= b {
                            a
                        } else {
                            b
                        },
                    )
                },
                Some(c) => {
                    if line.end == c {
                        assert(visited@ == v2);
                        let a = longest_trail(lines, visited, Some(line.start));
                        proof {
                            lemma_trail_bound(lines@, vp2, Some(line.start));
                        }
                        Some(1 + a)
                    } else if line.start == c {
                        assert(visited@ == v2);
                        let a = longest_trail(lines, visited, Some(line.end));
                        proof {
                            lemma_trail_bound(lines@, vp2, Some(line.end));
                        }
                        Some(1 + a)
                    } else {
                        None
                    }
                },
            };
            visited[i] = false;
            assert(visited@ =~= v0);
            if let Some(length) = length {
                if length > longest {
                    longest = length;
                }
            }
        }
        i += 1;
    }
    longest
}

} // verus!
