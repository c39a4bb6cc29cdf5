//! Fragments and lines: a paragraph's shaped fragments are packed greedily
//! into lines that do not exceed a maximum length.

use vstd::prelude::*;
use crate::fixed::{Fixed, add_spec, sat_add};
use crate::path::GlyphPath;

verus! {

/// A shaped run of glyphs that is never split across lines.
pub struct ShapedFragment {
    pub glyphs: Vec<GlyphPath>,
    /// The sum of the glyphs' advances.
    pub length: Fixed,
}

/// One line of a paragraph: a range of its fragments.
#[derive(Clone, Copy, Debug, PartialEq, Eq, Structural)]
pub struct LineInfo {
    /// The first fragment on the line.
    pub first_fragment_index: usize,
    /// One past the last fragment on the line, where `has_next_line` is set.
    /// The last line of a paragraph runs to the end of the fragments instead.
    pub last_fragment_index: usize,
    /// The sum of the lengths of the fragments on the line.
    pub line_length: Fixed,
    /// Whether another line of the same paragraph follows.
    pub has_next_line: bool,
}

/// A paragraph after wrapping.
pub struct ParagraphInfo {
    pub shaped_fragments: Vec<ShapedFragment>,
    pub lines: Vec<LineInfo>,
    pub is_rtl: bool,
}

/// The saturating sum of the advances of `glyphs`, taken from the left.
pub open spec fn total_advance(glyphs: Seq<GlyphPath>) -> int
    decreases glyphs.len(),
{
    if glyphs.len() == 0 {
        0
    } else {
        add_spec(total_advance(glyphs.drop_last()), glyphs.last().advance_x as int)
    }
}

/// The lengths of a list of fragments.
pub open spec fn fragment_lengths(fragments: Seq<ShapedFragment>) -> Seq<Fixed> {
    Seq::new(fragments.len(), |i: int| fragments[i].length)
}

/// The saturating sum of `lengths[from..to]`, taken from the left.
pub open spec fn sum_range(lengths: Seq<Fixed>, from: int, to: int) -> int
    decreases to - from,
{
    if to <= from {
        0
    } else {
        add_spec(sum_range(lengths, from, to - 1), lengths[to - 1] as int)
    }
}

/// The lines after one more fragment, of index `i` and length `length`, was
/// taken. The fragment joins the last line of `before` unless that line
/// would then be longer than `max`; in that case the line is closed before
/// the fragment, which starts the next line. Fragment 0 always stays on the
/// first line.
pub open spec fn wrap_step(before: Seq<LineInfo>, i: int, length: Fixed, max: Fixed) -> Seq<
    LineInfo,
> {
    let current = before.last();
    let total = add_spec(current.line_length as int, length as int);
    if total > max && i > 0 {
        before.drop_last().push(
            LineInfo { last_fragment_index: i as usize, has_next_line: true, ..current },
        ).push(
            LineInfo {
                first_fragment_index: i as usize,
                last_fragment_index: i as usize,
                line_length: length,
                has_next_line: false,
            },
        )
    } else {
        before.drop_last().push(LineInfo { line_length: total as i64, ..current })
    }
}

/// The lines of a paragraph whose fragments have the given lengths: the
/// fragments are taken in order, each by `wrap_step`. Without fragments there
/// is one empty line.
pub open spec fn wrap_lines(lengths: Seq<Fixed>, max: Fixed) -> Seq<LineInfo>
    decreases lengths.len(),
{
    if lengths.len() == 0 {
        seq![
            LineInfo {
                first_fragment_index: 0,
                last_fragment_index: 0,
                line_length: 0,
                has_next_line: false,
            },
        ]
    } else {
        wrap_step(
            wrap_lines(lengths.drop_last(), max),
            lengths.len() - 1,
            lengths.last(),
            max,
        )
    }
}

impl LineInfo {
    /// One past the last fragment of the line, in a paragraph of `count`
    /// fragments.
    pub open spec fn end(self, count: int) -> int {
        if self.has_next_line {
            self.last_fragment_index as int
        } else {
            count
        }
    }

    /// Whether fragment `j` is on the line, in a paragraph of `count`
    /// fragments.
    pub open spec fn holds(self, j: int, count: int) -> bool {
        self.first_fragment_index <= j < self.end(count)
    }

    /// One past the last fragment of the line, in a paragraph of
    /// `fragment_count` fragments.
    pub fn end_index(&self, fragment_count: usize) -> (r: usize)
        ensures
            r == self.end(fragment_count as int),
    {
        if self.has_next_line {
            self.last_fragment_index
        } else {
            fragment_count
        }
    }
}

/// Whether some line holds fragment `j`, in a paragraph of `count` fragments.
pub open spec fn on_some_line(lines: Seq<LineInfo>, j: int, count: int) -> bool {
    exists|k: int| 0 <= k < lines.len() && #[trigger] lines[k].holds(j, count)
}

/// The lines follow each other without gap or overlap: the first starts at
/// fragment 0, each line but the last holds at least one fragment and ends
/// where the next one starts, and the last one runs to the end, holding at
/// least one fragment unless there is none at all.
pub open spec fn lines_partition(lines: Seq<LineInfo>, count: int) -> bool {
    &&& lines.len() >= 1
    &&& lines[0].first_fragment_index == 0
    &&& forall|k: int|
        0 <= k < lines.len() - 1 ==> {
            &&& (#[trigger] lines[k]).has_next_line
            &&& lines[k].first_fragment_index < lines[k].last_fragment_index
            &&& lines[k].last_fragment_index == lines[k + 1].first_fragment_index
        }
    &&& !lines.last().has_next_line
    &&& lines.last().first_fragment_index <= count
    &&& count > 0 ==> lines.last().first_fragment_index < count
}

/// Each line's length is the sum of the lengths of its fragments.
pub open spec fn lines_measured(lines: Seq<LineInfo>, lengths: Seq<Fixed>) -> bool {
    forall|k: int|
        0 <= k < lines.len() ==> (#[trigger] lines[k]).line_length == sum_range(
            lengths,
            lines[k].first_fragment_index as int,
            lines[k].end(lengths.len() as int),
        )
}

/// Each line is full: the fragment that starts the next line did not fit, and
/// a line of two or more fragments is not longer than `max`.
pub open spec fn lines_greedy(lines: Seq<LineInfo>, lengths: Seq<Fixed>, max: Fixed) -> bool {
    &&& forall|k: int|
        0 <= k < lines.len() - 1 ==> add_spec(
            (#[trigger] lines[k]).line_length as int,
            lengths[lines[k].last_fragment_index as int] as int,
        ) > max
    &&& forall|k: int|
        0 <= k < lines.len() && (#[trigger] lines[k]).end(lengths.len() as int)
            - lines[k].first_fragment_index >= 2 ==> lines[k].line_length <= max
}

proof fn lemma_sum_range_prefix(lengths: Seq<Fixed>, from: int, to: int)
    requires
        0 <= from,
        to <= lengths.len() - 1,
    ensures
        sum_range(lengths.drop_last(), from, to) == sum_range(lengths, from, to),
    decreases to - from,
{
    if to > from {
        lemma_sum_range_prefix(lengths, from, to - 1);
    }
}

proof fn lemma_step_partition(before: Seq<LineInfo>, i: int, length: Fixed, max: Fixed)
    requires
        0 <= i <= usize::MAX,
        lines_partition(before, i),
    ensures
        lines_partition(wrap_step(before, i, length, max), i + 1),
{
    let lines = wrap_step(before, i, length, max);
    let m = before.len() as int;
    let current = before.last();
    let total = add_spec(current.line_length as int, length as int);
    assert forall|k: int| 0 <= k < m - 1 implies lines[k] == before[k] by {}
    if total > max && i > 0 {
        assert(lines.len() == m + 1);
        assert(lines[m].first_fragment_index == i);
        assert(lines[m - 1].last_fragment_index == i);
        assert(lines[m - 1].first_fragment_index == current.first_fragment_index);
        assert forall|k: int| 0 <= k < lines.len() - 1 implies {
            &&& (#[trigger] lines[k]).has_next_line
            &&& lines[k].first_fragment_index < lines[k].last_fragment_index
            &&& lines[k].last_fragment_index == lines[k + 1].first_fragment_index
        } by {
            if k < m - 1 {
                assert(before[k].has_next_line);
                assert(lines[k] == before[k]);
                if k + 1 < m - 1 {
                    assert(lines[k + 1] == before[k + 1]);
                }
            }
        }
    } else {
        assert(lines.len() == m);
        assert(lines[m - 1].first_fragment_index == current.first_fragment_index);
        assert forall|k: int| 0 <= k < lines.len() - 1 implies {
            &&& (#[trigger] lines[k]).has_next_line
            &&& lines[k].first_fragment_index < lines[k].last_fragment_index
            &&& lines[k].last_fragment_index == lines[k + 1].first_fragment_index
        } by {
            assert(before[k].has_next_line);
            assert(lines[k] == before[k]);
            if k + 1 < m - 1 {
                assert(lines[k + 1] == before[k + 1]);
            }
        }
    }
}

proof fn lemma_step_measured(before: Seq<LineInfo>, lengths: Seq<Fixed>, max: Fixed)
    requires
        0 < lengths.len() <= usize::MAX,
        lines_partition(before, lengths.len() - 1),
        lines_measured(before, lengths.drop_last()),
    ensures
        lines_measured(wrap_step(before, lengths.len() - 1, lengths.last(), max), lengths),
{
    let n = lengths.len() as int;
    let i = n - 1;
    let shorter = lengths.drop_last();
    let lines = wrap_step(before, i, lengths.last(), max);
    let m = before.len() as int;
    let current = before.last();
    let first = current.first_fragment_index as int;
    let total = add_spec(current.line_length as int, lengths.last() as int);
    assert(before[m - 1].line_length == sum_range(shorter, first, i));
    lemma_sum_range_prefix(lengths, first, i);
    assert(sum_range(lengths, first, n) == total);
    assert forall|k: int| 0 <= k < lines.len() implies (#[trigger] lines[k]).line_length
        == sum_range(lengths, lines[k].first_fragment_index as int, lines[k].end(n)) by {
        if k < m - 1 {
            assert(lines[k] == before[k]);
            assert(before[k].has_next_line);
            assert(before[k].last_fragment_index == before[k + 1].first_fragment_index);
            lemma_lines_ordered(before, i, k, m - 1);
            lemma_sum_range_prefix(
                lengths,
                before[k].first_fragment_index as int,
                before[k].last_fragment_index as int,
            );
        } else if k == m - 1 {
        } else {
            assert(sum_range(lengths, i, i) == 0);
            assert(sum_range(lengths, i, i + 1) == add_spec(0, lengths[i] as int));
        }
    }
}

proof fn lemma_step_greedy(before: Seq<LineInfo>, lengths: Seq<Fixed>, max: Fixed)
    requires
        0 < lengths.len() <= usize::MAX,
        lines_partition(before, lengths.len() - 1),
        lines_greedy(before, lengths.drop_last(), max),
    ensures
        lines_greedy(wrap_step(before, lengths.len() - 1, lengths.last(), max), lengths, max),
{
    let n = lengths.len() as int;
    let i = n - 1;
    let shorter = lengths.drop_last();
    let lines = wrap_step(before, i, lengths.last(), max);
    let m = before.len() as int;
    let current = before.last();
    assert forall|k: int| 0 <= k < lines.len() - 1 implies add_spec(
        (#[trigger] lines[k]).line_length as int,
        lengths[lines[k].last_fragment_index as int] as int,
    ) > max by {
        if k < m - 1 {
            assert(lines[k] == before[k]);
            assert(before[k].has_next_line);
            lemma_lines_ordered(before, i, k, m - 1);
            assert(shorter[before[k].last_fragment_index as int]
                == lengths[before[k].last_fragment_index as int]);
        }
    }
    assert forall|k: int|
        0 <= k < lines.len() && (#[trigger] lines[k]).end(n) - lines[k].first_fragment_index
            >= 2 implies lines[k].line_length <= max by {
        if k < m - 1 {
            assert(lines[k] == before[k]);
            assert(before[k].has_next_line);
            assert(before[k].end(i) == lines[k].end(n));
        } else if k == m - 1 {
            if lines.len() == m + 1 {
                assert(before[k].end(i) == lines[k].end(n));
            }
        }
    }
}

proof fn lemma_wrap_lines(lengths: Seq<Fixed>, max: Fixed)
    requires
        lengths.len() <= usize::MAX,
    ensures
        lines_partition(wrap_lines(lengths, max), lengths.len() as int),
        lines_measured(wrap_lines(lengths, max), lengths),
        lines_greedy(wrap_lines(lengths, max), lengths, max),
    decreases lengths.len(),
{
    if lengths.len() == 0 {
        assert(sum_range(lengths, 0, 0) == 0);
    } else {
        let before = wrap_lines(lengths.drop_last(), max);
        lemma_wrap_lines(lengths.drop_last(), max);
        lemma_step_partition(before, lengths.len() - 1, lengths.last(), max);
        lemma_step_measured(before, lengths, max);
        lemma_step_greedy(before, lengths, max);
    }
}

/// The starts of the lines increase strictly, and each line that has a next
/// line ends at or before the start of every later line.
proof fn lemma_lines_ordered(lines: Seq<LineInfo>, count: int, a: int, b: int)
    requires
        lines_partition(lines, count),
        0 <= a < b < lines.len(),
    ensures
        lines[a].has_next_line,
        lines[a].first_fragment_index < lines[a].last_fragment_index,
        lines[a].last_fragment_index <= lines[b].first_fragment_index,
    decreases b - a,
{
    assert(lines[a].has_next_line);
    if a + 1 < b {
        lemma_lines_ordered(lines, count, a + 1, b);
        assert(lines[a + 1].has_next_line);
    }
}

proof fn lemma_line_exists(lines: Seq<LineInfo>, count: int, j: int, upto: int) -> (k: int)
    requires
        lines_partition(lines, count),
        0 <= upto < lines.len(),
        lines[upto].first_fragment_index <= j < count,
    ensures
        0 <= k < lines.len(),
        lines[k].holds(j, count),
    decreases lines.len() - upto,
{
    if upto == lines.len() - 1 {
        upto
    } else {
        assert(lines[upto].has_next_line);
        if j < lines[upto].last_fragment_index {
            upto
        } else {
            lemma_line_exists(lines, count, j, upto + 1)
        }
    }
}

/// Each line of a partition holds a range of the fragments.
pub proof fn lemma_line_bounds(lines: Seq<LineInfo>, count: int, k: int)
    requires
        lines_partition(lines, count),
        0 <= k < lines.len(),
    ensures
        0 <= lines[k].first_fragment_index <= lines[k].end(count) <= count,
    decreases lines.len() - k,
{
    if k < lines.len() - 1 {
        assert(lines[k].has_next_line);
        lemma_line_bounds(lines, count, k + 1);
    }
}

/// Lines that follow each other without gap or overlap cover the fragments
/// exactly: with `count` fragments, every fragment from 0 to `count - 1` is
/// on one line and on one only, no line reaches beyond the fragments, and the
/// starts of the lines increase strictly.
pub proof fn lemma_partition_covers(lines: Seq<LineInfo>, count: int)
    requires
        lines_partition(lines, count),
    ensures
        forall|j: int| 0 <= j < count ==> #[trigger] on_some_line(lines, j, count),
        forall|j: int, a: int, b: int|
            0 <= a < lines.len() && 0 <= b < lines.len() && #[trigger] lines[a].holds(j, count)
                && #[trigger] lines[b].holds(j, count) ==> a == b,
        forall|k: int|
            0 <= k < lines.len() ==> 0 <= (#[trigger] lines[k]).first_fragment_index
                <= lines[k].end(count) <= count,
        forall|a: int, b: int|
            0 <= a < b < lines.len() ==> (#[trigger] lines[a]).first_fragment_index < (
            #[trigger] lines[b]).first_fragment_index,
{
    assert forall|j: int| 0 <= j < count implies #[trigger] on_some_line(lines, j, count) by {
        let k = lemma_line_exists(lines, count, j, 0);
        assert(lines[k].holds(j, count));
    }
    assert forall|j: int, a: int, b: int|
        0 <= a < lines.len() && 0 <= b < lines.len() && #[trigger] lines[a].holds(j, count)
            && #[trigger] lines[b].holds(j, count) implies a == b by {
        if a < b {
            lemma_lines_ordered(lines, count, a, b);
        } else if b < a {
            lemma_lines_ordered(lines, count, b, a);
        }
    }
    assert forall|k: int| 0 <= k < lines.len() implies 0 <= (#[trigger] lines[k])
        .first_fragment_index <= lines[k].end(count) <= count by {
        lemma_line_bounds(lines, count, k);
    }
    assert forall|a: int, b: int| 0 <= a < b < lines.len() implies (#[trigger] lines[a])
        .first_fragment_index < (#[trigger] lines[b]).first_fragment_index by {
        lemma_lines_ordered(lines, count, a, b);
    }
}

/// The lines that wrapping makes follow each other without gap or overlap,
/// so that they cover the fragments exactly, as `lemma_partition_covers`
/// spells out.
pub proof fn lemma_lines_cover(lengths: Seq<Fixed>, max: Fixed)
    requires
        lengths.len() <= usize::MAX,
    ensures
        lines_partition(wrap_lines(lengths, max), lengths.len() as int),
{
    lemma_wrap_lines(lengths, max);
}

/// Wrapping is greedy. Each line's length is the sum of its fragments'
/// lengths; a line is closed only when the next fragment would make it longer
/// than `max`; and a line of two or more fragments is never longer than `max`.
pub proof fn lemma_lines_full(lengths: Seq<Fixed>, max: Fixed)
    requires
        lengths.len() <= usize::MAX,
    ensures
        lines_measured(wrap_lines(lengths, max), lengths),
        lines_greedy(wrap_lines(lengths, max), lengths, max),
{
    lemma_wrap_lines(lengths, max);
}

proof fn lemma_single_fragment(lines: Seq<LineInfo>, lengths: Seq<Fixed>, max: Fixed, k: int)
    requires
        lines_partition(lines, lengths.len() as int),
        lines_measured(lines, lengths),
        lines_greedy(lines, lengths, max),
        0 <= k < lines.len(),
        lines[k].end(lengths.len() as int) == lines[k].first_fragment_index + 1,
    ensures
        k > 0 ==> add_spec(
            lines[k - 1].line_length as int,
            lengths[lines[k].first_fragment_index as int] as int,
        ) > max,
        k + 1 < lines.len() ==> add_spec(
            lengths[lines[k].first_fragment_index as int] as int,
            lengths[lines[k].first_fragment_index + 1] as int,
        ) > max,
{
    let i = lines[k].first_fragment_index as int;
    if k > 0 {
        assert(lines[k - 1].has_next_line);
        assert(lines[k - 1].last_fragment_index == i);
    }
    if k + 1 < lines.len() {
        assert(lines[k].has_next_line);
        assert(lines[k].last_fragment_index == i + 1);
        assert(lines[k].line_length == sum_range(lengths, i, i + 1));
        assert(sum_range(lengths, i, i) == 0);
        assert(sum_range(lengths, i, i + 1) == add_spec(0, lengths[i] as int));
    }
}

/// No fragment is left alone on a line without need. If line `k` holds the
/// single fragment `i`, then `i` did not fit at the end of the line before
/// (or there is none), and the fragment after `i` did not fit beside it (or
/// there is none).
pub proof fn lemma_single_fragment_line(lengths: Seq<Fixed>, max: Fixed, k: int)
    requires
        lengths.len() <= usize::MAX,
        0 <= k < wrap_lines(lengths, max).len(),
        wrap_lines(lengths, max)[k].end(lengths.len() as int) == wrap_lines(
            lengths,
            max,
        )[k].first_fragment_index + 1,
    ensures
        k > 0 ==> add_spec(
            wrap_lines(lengths, max)[k - 1].line_length as int,
            lengths[wrap_lines(lengths, max)[k].first_fragment_index as int] as int,
        ) > max,
        k + 1 < wrap_lines(lengths, max).len() ==> add_spec(
            lengths[wrap_lines(lengths, max)[k].first_fragment_index as int] as int,
            lengths[wrap_lines(lengths, max)[k].first_fragment_index + 1] as int,
        ) > max,
{
    lemma_wrap_lines(lengths, max);
    lemma_single_fragment(wrap_lines(lengths, max), lengths, max, k);
}

/// A paragraph of one fragment has one line, which holds the fragment,
/// however long the fragment is.
pub proof fn lemma_one_fragment_one_line(length: Fixed, max: Fixed)
    ensures
        wrap_lines(seq![length], max) == seq![
            LineInfo {
                first_fragment_index: 0,
                last_fragment_index: 0,
                line_length: length,
                has_next_line: false,
            },
        ],
{
    let lengths = seq![length];
    assert(lengths.drop_last() =~= Seq::<Fixed>::empty());
    assert(wrap_lines(lengths.drop_last(), max).len() == 1);
    let before = wrap_lines(lengths.drop_last(), max);
    assert(wrap_lines(lengths, max) == wrap_step(before, 0, length, max));
    assert(wrap_lines(lengths, max) =~= seq![
        LineInfo {
            first_fragment_index: 0,
            last_fragment_index: 0,
            line_length: length,
            has_next_line: false,
        },
    ]);
}

impl ShapedFragment {
    /// A fragment of the given glyphs, with its length.
    pub fn new(glyphs: Vec<GlyphPath>) -> (r: ShapedFragment)
        ensures
            r.glyphs == glyphs,
            r.length == total_advance(glyphs@),
    {
        let mut length: Fixed = 0;
        let mut i: usize = 0;
        while i < glyphs.len()
            invariant
                i <= glyphs.len(),
                length == total_advance(glyphs@.take(i as int)),
            decreases glyphs.len() - i,
        {
            proof {
                assert(glyphs@.take(i + 1).drop_last() =~= glyphs@.take(i as int));
            }
            length = sat_add(length, glyphs[i].advance_x);
            i += 1;
        }
        proof {
            assert(glyphs@.take(glyphs.len() as int) =~= glyphs@);
        }
        ShapedFragment { glyphs, length }
    }
}

impl ParagraphInfo {
    /// A paragraph is well formed when its lines follow each other without gap
    /// or overlap and cover its fragments. Every paragraph made by `new` is.
    pub open spec fn wf(&self) -> bool {
        lines_partition(self.lines@, self.shaped_fragments.len() as int)
    }

    /// Wraps the fragments of a paragraph into lines no longer than
    /// `max_line_length`, where the fragments allow it.
    pub fn new(shaped_fragments: Vec<ShapedFragment>, max_line_length: Fixed, is_rtl: bool) -> (r:
        ParagraphInfo)
        ensures
            r.shaped_fragments == shaped_fragments,
            r.is_rtl == is_rtl,
            r.lines@ == wrap_lines(fragment_lengths(shaped_fragments@), max_line_length),
            r.wf(),
    {
        let ghost lengths = fragment_lengths(shaped_fragments@);
        let mut lines: Vec<LineInfo> = Vec::new();
        lines.push(
            LineInfo {
                first_fragment_index: 0,
                last_fragment_index: 0,
                line_length: 0,
                has_next_line: false,
            },
        );
        let mut current_line_length: Fixed = 0;
        let mut i: usize = 0;
        proof {
            assert(lengths.take(0) =~= Seq::<Fixed>::empty());
            assert(lines@ =~= wrap_lines(lengths.take(0), max_line_length));
        }
        while i < shaped_fragments.len()
            invariant
                i <= shaped_fragments.len(),
                lengths == fragment_lengths(shaped_fragments@),
                lines@ == wrap_lines(lengths.take(i as int), max_line_length),
                lines.len() >= 1,
                current_line_length == lines@.last().line_length,
            decreases shaped_fragments.len() - i,
        {
            let length = shaped_fragments[i].length;
            let last: usize = lines.len() - 1;
            let mut line = lines[last];
            proof {
                assert(lengths.take(i + 1).drop_last() =~= lengths.take(i as int));
                assert(lengths.take(i + 1).last() == length);
            }
            current_line_length = sat_add(current_line_length, length);
            if current_line_length > max_line_length && i > 0 {
                current_line_length = length;
                line.last_fragment_index = i;
                line.has_next_line = true;
                lines.set(last, line);
                lines.push(
                    LineInfo {
                        first_fragment_index: i,
                        last_fragment_index: i,
                        line_length: length,
                        has_next_line: false,
                    },
                );
            } else {
                line.line_length = current_line_length;
                lines.set(last, line);
            }
            proof {
                assert(lines@ =~= wrap_step(
                    wrap_lines(lengths.take(i as int), max_line_length),
                    i as int,
                    length,
                    max_line_length,
                ));
            }
            i += 1;
        }
        proof {
            assert(lengths.take(shaped_fragments.len() as int) =~= lengths);
            lemma_wrap_lines(lengths, max_line_length);
        }
        ParagraphInfo { shaped_fragments, lines, is_rtl }
    }
}

} // verus!
