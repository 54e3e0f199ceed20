//! The map as text: a picture for the eye, and comma-separated digits.

use vstd::prelude::*;
use vstd::string::StringExecFns;
use crate::geometry::Point;
use crate::plan::Plan;
use crate::wall_map::WallMap;

verus! {

/// One row as text: for each cell `wall` or `passage`, with `gap` between
/// one cell and the next.
pub open spec fn row_text(row: Seq<bool>, wall: Seq<char>, passage: Seq<char>, gap: Seq<char>) -> Seq<
    char,
>
    decreases row.len(),
{
    let cell = if row.len() > 0 && row.last() {
        wall
    } else {
        passage
    };
    if row.len() == 0 {
        Seq::empty()
    } else if row.len() == 1 {
        cell
    } else {
        row_text(row.drop_last(), wall, passage, gap) + gap + cell
    }
}

/// The rows as text, one line for each row, each line ended by a newline.
pub open spec fn rows_text(
    rows: Seq<Seq<bool>>,
    wall: Seq<char>,
    passage: Seq<char>,
    gap: Seq<char>,
) -> Seq<char>
    decreases rows.len(),
{
    if rows.len() == 0 {
        Seq::empty()
    } else {
        rows_text(rows.drop_last(), wall, passage, gap) + row_text(rows.last(), wall, passage, gap)
            + seq!['\n']
    }
}

/// The picture of a map: a black square for a wall and a blank for a
/// passage, with a blank between one cell and the next.
pub open spec fn picture(plan: Plan) -> Seq<char> {
    rows_text(plan.walls, seq!['\u{25A0}'], seq![' '], seq![' '])
}

/// A map as comma-separated values: 1 for a wall and 0 for a passage.
pub open spec fn csv(plan: Plan) -> Seq<char> {
    rows_text(plan.walls, seq!['1'], seq!['0'], seq![','])
}

/// Writes the map row by row with the three pieces given.
fn render(m: &WallMap, wall: &str, passage: &str, gap: &str) -> (out: String)
    requires
        m.wf(),
    ensures
        out@ == rows_text(m@.walls, wall@, passage@, gap@),
{
    let height = m.height();
    let width = m.width();
    let mut out = String::new();
    let mut i: usize = 0;
    while i < height
        invariant
            m.wf(),
            height == m@.height(),
            width == m@.width(),
            i <= height,
            out@ == rows_text(m@.walls.take(i as int), wall@, passage@, gap@),
        decreases height - i,
    {
        let ghost above = out@;
        let ghost row = m@.walls[i as int];
        let mut j: usize = 0;
        while j < width
            invariant
                m.wf(),
                height == m@.height(),
                width == m@.width(),
                i < height,
                j <= width,
                row == m@.walls[i as int],
                out@ == above + row_text(row.take(j as int), wall@, passage@, gap@),
            decreases width - j,
        {
            let ghost before = row_text(row.take(j as int), wall@, passage@, gap@);
            if j > 0 {
                out.append(gap);
            }
            if m.is_wall(&Point::new(i, j)) {
                out.append(wall);
            } else {
                out.append(passage);
            }
            proof {
                let longer = row.take(j + 1);
                assert(longer.drop_last() == row.take(j as int));
                assert(longer.last() == row[j as int]);
                let cell = if row[j as int] {
                    wall@
                } else {
                    passage@
                };
                if j > 0 {
                    assert(out@ == above + (before + gap@ + cell));
                } else {
                    assert(before == Seq::<char>::empty());
                    assert(out@ == above + cell);
                }
            }
            j += 1;
        }
        out.append("\n");
        proof {
            reveal_strlit("\n");
            assert("\n"@ == seq!['\n']);
            assert(row.take(width as int) == row);
            let more = m@.walls.take(i + 1);
            assert(more.drop_last() == m@.walls.take(i as int));
            assert(more.last() == row);
            assert(out@ == above + row_text(row, wall@, passage@, gap@) + seq!['\n']);
        }
        i += 1;
    }
    assert(m@.walls.take(height as int) == m@.walls);
    out
}

/// The picture of the map, as [`picture`] defines it.
pub fn render_map(m: &WallMap) -> (out: String)
    requires
        m.wf(),
    ensures
        out@ == picture(m@),
{
    proof {
        reveal_strlit("\u{25A0}");
        reveal_strlit(" ");
        assert("\u{25A0}"@ == seq!['\u{25A0}']);
        assert(" "@ == seq![' ']);
    }
    render(m, "\u{25A0}", " ", " ")
}

/// The map as comma-separated values, as [`csv`] defines them.
pub fn render_map_csv(m: &WallMap) -> (out: String)
    requires
        m.wf(),
    ensures
        out@ == csv(m@),
{
    proof {
        reveal_strlit("1");
        reveal_strlit("0");
        reveal_strlit(",");
        assert("1"@ == seq!['1']);
        assert("0"@ == seq!['0']);
        assert(","@ == seq![',']);
    }
    render(m, "1", "0", ",")
}

} // verus!
