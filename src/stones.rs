//! The piece-placement field of FEN: reading it into a grid and writing a
//! grid back.
use vstd::prelude::*;
use crate::enums::FenError;
use crate::stone::{Stone, fen_char, stone_of_char};
use crate::text::{lemma_split_concat, lemma_split_single, push_char, split_on, split_text};

verus! {

/// The digit character of `n` for `1 <= n <= 9`.
pub open spec fn digit_char(n: int) -> char {
    if n == 1 {
        '1'
    } else if n == 2 {
        '2'
    } else if n == 3 {
        '3'
    } else if n == 4 {
        '4'
    } else if n == 5 {
        '5'
    } else if n == 6 {
        '6'
    } else if n == 7 {
        '7'
    } else if n == 8 {
        '8'
    } else {
        '9'
    }
}

pub open spec fn row_of_nothing() -> Seq<Option<Stone>> {
    Seq::new(8, |i: int| None)
}

/// Reads the rest of a placement row with the cursor at column `col`: a
/// digit skips that many squares, a letter places a stone. Running past
/// the eighth square, or a character that is neither, makes it invalid.
pub open spec fn row_scan(s: Seq<char>, col: int, acc: Seq<Option<Stone>>) -> Option<Seq<Option<Stone>>>
    decreases s.len(),
{
    if s.len() == 0 {
        Some(acc)
    } else {
        let c = s[0];
        let rest = s.subrange(1, s.len() as int);
        if '1' <= c && c <= '9' {
            let d = c as int - '0' as int;
            if col + d > 8 {
                None
            } else {
                row_scan(rest, col + d, acc)
            }
        } else {
            match stone_of_char(c) {
                Some(st) => if col > 7 {
                    None
                } else {
                    row_scan(rest, col + 1, acc.update(col, Some(st)))
                },
                None => None,
            }
        }
    }
}

/// The eight squares of a placement row, if it is valid.
pub open spec fn row_of(s: Seq<char>) -> Option<Seq<Option<Stone>>> {
    row_scan(s, 0, row_of_nothing())
}

/// The grid that a placement field describes: at most eight rows separated
/// by `/`, rows that are left out being empty.
pub open spec fn placement_of(field: Seq<char>) -> Option<Seq<Option<Stone>>> {
    let rows = split_on(field, '/');
    if rows.len() <= 8 && (forall|k: int| 0 <= k < rows.len() ==> (#[trigger] row_of(rows[k])) is Some) {
        Some(
            Seq::new(
                64,
                |i: int|
                    if i / 8 < rows.len() {
                        row_of(rows[i / 8]).unwrap()[i % 8]
                    } else {
                        None
                    },
            ),
        )
    } else {
        None
    }
}

/// Writes the squares of `cells` after a run of `gap` empty squares: runs of
/// empty squares as one digit, stones as their letters.
pub open spec fn render_cells(cells: Seq<Option<Stone>>, gap: int) -> Seq<char>
    decreases cells.len(),
{
    if cells.len() == 0 {
        if gap > 0 {
            seq![digit_char(gap)]
        } else {
            Seq::<char>::empty()
        }
    } else {
        let rest = cells.subrange(1, cells.len() as int);
        match cells[0] {
            None => render_cells(rest, gap + 1),
            Some(st) => (if gap > 0 {
                seq![digit_char(gap)]
            } else {
                Seq::<char>::empty()
            }) + seq![fen_char(st)] + render_cells(rest, 0),
        }
    }
}

/// Row `y` of a grid.
pub open spec fn grid_row(g: Seq<Option<Stone>>, y: int) -> Seq<Option<Stone>> {
    g.subrange(y * 8, y * 8 + 8)
}

/// The first `k` rows of a grid written out, separated by `/`.
pub open spec fn render_rows(g: Seq<Option<Stone>>, k: int) -> Seq<char>
    decreases k,
{
    if k <= 0 {
        Seq::<char>::empty()
    } else if k == 1 {
        render_cells(grid_row(g, 0), 0)
    } else {
        render_rows(g, k - 1).push('/') + render_cells(grid_row(g, k - 1), 0)
    }
}

/// The placement field of a grid.
pub open spec fn placement_field(g: Seq<Option<Stone>>) -> Seq<char> {
    render_rows(g, 8)
}

fn digit_of(n: u32) -> (c: char)
    requires
        1 <= n <= 9,
    ensures
        c == digit_char(n as int),
{
    match n {
        1 => '1',
        2 => '2',
        3 => '3',
        4 => '4',
        5 => '5',
        6 => '6',
        7 => '7',
        8 => '8',
        _ => '9',
    }
}

/// Reads one placement row into its eight squares.
fn read_row(row: &str) -> (r: Option<Vec<Option<Stone>>>)
    ensures
        r matches Some(v) ==> row_of(row@) == Some(v@) && v@.len() == 8,
        r is None ==> row_of(row@) is None,
{
    let n = row.unicode_len();
    let mut cells: Vec<Option<Stone>> = Vec::new();
    let mut k: usize = 0;
    while k < 8
        invariant
            k <= 8,
            cells@.len() == k,
            forall|j: int| 0 <= j < k ==> #[trigger] cells@[j] is None,
        decreases 8 - k,
    {
        cells.push(None);
        k = k + 1;
    }
    proof {
        assert(cells@ =~= row_of_nothing());
        assert(row@.subrange(0, n as int) =~= row@);
    }
    let mut col: usize = 0;
    let mut i: usize = 0;
    while i < n
        invariant
            n == row@.len(),
            i <= n,
            col <= 8,
            cells@.len() == 8,
            row_of(row@) == row_scan(row@.subrange(i as int, n as int), col as int, cells@),
        decreases n - i,
    {
        let c = row.get_char(i);
        let ghost rest = row@.subrange(i as int, n as int);
        proof {
            assert(rest[0] == c);
            assert(rest.subrange(1, rest.len() as int) =~= row@.subrange(i + 1, n as int));
        }
        if '1' <= c && c <= '9' {
            let d = c as u32 - '0' as u32;
            if col + d as usize > 8 {
                return None;
            }
            col = col + d as usize;
        } else {
            match Stone::try_from(c) {
                Ok(st) => {
                    if col > 7 {
                        return None;
                    }
                    cells.set(col, Some(st));
                    col = col + 1;
                },
                Err(_) => {
                    return None;
                },
            }
        }
        i = i + 1;
    }
    proof {
        assert(row@.subrange(n as int, n as int).len() == 0);
    }
    Some(cells)
}

/// Reads the piece-placement field of a FEN string into 64 squares, row by
/// row from rank 8.
pub fn fen_to_stones(field: &str) -> (r: Result<Vec<Option<Stone>>, FenError>)
    ensures
        r matches Ok(g) ==> placement_of(field@) == Some(g@),
        r matches Err(e) ==> placement_of(field@) is None && e == FenError::InvalidStones,
{
    let rows = split_text(field, '/');
    let ghost srows = split_on(field@, '/');
    if rows.len() > 8 {
        return Err(FenError::InvalidStones);
    }
    let mut grid: Vec<Option<Stone>> = Vec::new();
    let mut k: usize = 0;
    while k < rows.len()
        invariant
            rows@.len() == srows.len(),
            srows == split_on(field@, '/'),
            forall|i: int| 0 <= i < rows@.len() ==> #[trigger] rows@[i]@ == srows[i],
            rows@.len() <= 8,
            k <= rows@.len(),
            grid@.len() == k * 8,
            forall|j: int| 0 <= j < k ==> (#[trigger] row_of(srows[j])) is Some,
            forall|i: int| 0 <= i < k * 8 ==> #[trigger] grid@[i] == row_of(srows[i / 8]).unwrap()[i % 8],
        decreases rows@.len() - k,
    {
        let row = read_row(rows[k].as_str());
        match row {
            Some(cells) => {
                let ghost before = grid@;
                let mut j: usize = 0;
                while j < 8
                    invariant
                        k < rows@.len(),
                        rows@.len() <= 8,
                        j <= 8,
                        grid@.len() == k * 8 + j,
                        cells@.len() == 8,
                        row_of(srows[k as int]) == Some(cells@),
                        forall|i: int| 0 <= i < k * 8 ==> #[trigger] grid@[i] == before[i],
                        forall|i: int| 0 <= i < j ==> #[trigger] grid@[k * 8 + i] == cells@[i],
                    decreases 8 - j,
                {
                    grid.push(cells[j]);
                    j = j + 1;
                }
                proof {
                    assert forall|i: int| 0 <= i < (k + 1) * 8 implies #[trigger] grid@[i] == row_of(
                        srows[i / 8],
                    ).unwrap()[i % 8] by {
                        if i < k * 8 {
                            assert(grid@[i] == before[i]);
                        } else {
                            assert(i / 8 == k);
                            assert(grid@[k * 8 + (i - k * 8)] == cells@[i - k * 8]);
                        }
                    }
                }
            },
            None => {
                return Err(FenError::InvalidStones);
            },
        }
        k = k + 1;
    }
    let filled = grid.len();
    while grid.len() < 64
        invariant
            rows@.len() <= 8,
            filled == rows@.len() * 8,
            filled <= grid@.len() <= 64,
            forall|i: int| 0 <= i < filled ==> #[trigger] grid@[i] == row_of(srows[i / 8]).unwrap()[i % 8],
            forall|i: int| filled <= i < grid@.len() ==> #[trigger] grid@[i] is None,
        decreases 64 - grid@.len(),
    {
        grid.push(None);
    }
    proof {
        let want = placement_of(field@).unwrap();
        assert forall|i: int| 0 <= i < 64 implies #[trigger] grid@[i] == want[i] by {
            if i < filled {
                assert(i / 8 < srows.len());
            } else {
                assert(!(i / 8 < srows.len()));
            }
        }
        assert(grid@ =~= want);
    }
    Ok(grid)
}

/// Writes `cells` from position `i` on, after a run of `gap` empty squares.
fn write_cells(out: &mut String, cells: &Vec<Option<Stone>>, from: usize, to: usize)
    requires
        from <= to <= cells@.len(),
        to - from <= 9,
    ensures
        final(out)@ == old(out)@ + render_cells(cells@.subrange(from as int, to as int), 0),
{
    let mut gap: u32 = 0;
    let mut i: usize = from;
    while i < to
        invariant
            from <= i <= to,
            to <= cells@.len(),
            to - from <= 9,
            gap <= i - from,
            out@ + render_cells(cells@.subrange(i as int, to as int), gap as int) == old(out)@
                + render_cells(cells@.subrange(from as int, to as int), 0),
        decreases to - i,
    {
        let ghost rest = cells@.subrange(i as int, to as int);
        proof {
            assert(rest.subrange(1, rest.len() as int) =~= cells@.subrange(i + 1, to as int));
            assert(rest[0] == cells@[i as int]);
        }
        match cells[i] {
            None => {
                gap = gap + 1;
            },
            Some(st) => {
                let ghost o = out@;
                if gap > 0 {
                    push_char(out, digit_of(gap));
                }
                push_char(out, st.char());
                proof {
                    let pre = if gap > 0 {
                        seq![digit_char(gap as int)]
                    } else {
                        Seq::<char>::empty()
                    };
                    assert(out@ =~= o + pre + seq![fen_char(st)]);
                    assert(o + render_cells(rest, gap as int) == o + (pre + seq![fen_char(st)]
                        + render_cells(cells@.subrange(i + 1, to as int), 0)));
                    assert(out@ + render_cells(cells@.subrange(i + 1, to as int), 0) =~= o + (pre
                        + seq![fen_char(st)] + render_cells(cells@.subrange(i + 1, to as int), 0)));
                }
                gap = 0;
            },
        }
        i = i + 1;
    }
    proof {
        let e = cells@.subrange(to as int, to as int);
        assert(e.len() == 0);
    }
    if gap > 0 {
        push_char(out, digit_of(gap));
    }
    proof {
        assert(out@ =~= old(out)@ + render_cells(cells@.subrange(from as int, to as int), 0));
    }
}

/// Appends the placement field of a 64-square grid.
pub(crate) fn write_placement(out: &mut String, g: &Vec<Option<Stone>>)
    requires
        g@.len() == 64,
    ensures
        final(out)@ == old(out)@ + placement_field(g@),
{
    let mut y: usize = 0;
    while y < 8
        invariant
            y <= 8,
            g@.len() == 64,
            out@ == old(out)@ + render_rows(g@, y as int),
        decreases 8 - y,
    {
        let ghost o = out@;
        if y > 0 {
            push_char(out, '/');
        }
        write_cells(out, g, y * 8, y * 8 + 8);
        proof {
            assert(g@.subrange(y * 8, y * 8 + 8) == grid_row(g@, y as int));
            if y == 0 {
                assert(out@ =~= old(out)@ + render_rows(g@, 1));
            } else {
                assert(out@ =~= old(out)@ + render_rows(g@, y + 1));
            }
        }
        y = y + 1;
    }
}

proof fn lemma_digit(g: int)
    requires
        1 <= g <= 9,
    ensures
        '1' <= digit_char(g) <= '9',
        digit_char(g) as int - '0' as int == g,
        digit_char(g) != '/' && digit_char(g) != ' ',
{
}

/// Reading back what `render_cells` wrote for the squares of `cells` from
/// `k` on, after a run of `gap` empty squares, fills in those squares.
proof fn lemma_row_scan_render(cells: Seq<Option<Stone>>, k: int, gap: int, acc: Seq<Option<Stone>>)
    requires
        cells.len() == 8,
        acc.len() == 8,
        0 <= gap <= k <= 8,
        forall|i: int| k - gap <= i < k ==> cells[i] is None,
        forall|i: int| 0 <= i < k - gap ==> acc[i] == cells[i],
        forall|i: int| k - gap <= i < 8 ==> acc[i] is None,
    ensures
        row_scan(render_cells(cells.subrange(k, 8), gap), k - gap, acc) == Some(cells),
    decreases 8 - k,
{
    let rest = cells.subrange(k, 8);
    if k == 8 {
        assert(rest.len() == 0);
        assert(acc =~= cells);
        if gap > 0 {
            lemma_digit(gap);
            let w = seq![digit_char(gap)];
            assert(render_cells(rest, gap) == w);
            assert(w.subrange(1, 1) =~= Seq::<char>::empty());
            assert(row_scan(w, k - gap, acc) == row_scan(Seq::<char>::empty(), 8, acc));
        } else {
            assert(render_cells(rest, gap) == Seq::<char>::empty());
        }
    } else {
        assert(rest[0] == cells[k]);
        assert(rest.subrange(1, rest.len() as int) =~= cells.subrange(k + 1, 8));
        match cells[k] {
            None => {
                lemma_row_scan_render(cells, k + 1, gap + 1, acc);
            },
            Some(st) => {
                let tail = render_cells(cells.subrange(k + 1, 8), 0);
                let acc2 = acc.update(k, Some(st));
                lemma_row_scan_render(cells, k + 1, 0, acc2);
                let after = seq![fen_char(st)] + tail;
                assert(after[0] == fen_char(st));
                assert(after.subrange(1, after.len() as int) =~= tail);
                assert(row_scan(after, k, acc) == row_scan(tail, k + 1, acc2));
                if gap > 0 {
                    lemma_digit(gap);
                    let w = seq![digit_char(gap)] + after;
                    assert(w =~= seq![digit_char(gap)] + seq![fen_char(st)] + tail);
                    assert(w[0] == digit_char(gap));
                    assert(w.subrange(1, w.len() as int) =~= after);
                } else {
                    assert(Seq::<char>::empty() + seq![fen_char(st)] + tail =~= after);
                }
            },
        }
    }
}

/// A written row holds neither `/` nor a space.
pub proof fn lemma_render_cells_plain(cells: Seq<Option<Stone>>, gap: int)
    requires
        0 <= gap,
        gap + cells.len() <= 8,
    ensures
        forall|i: int|
            0 <= i < render_cells(cells, gap).len() ==> #[trigger] render_cells(cells, gap)[i] != '/'
                && render_cells(cells, gap)[i] != ' ',
    decreases cells.len(),
{
    if cells.len() > 0 {
        let rest = cells.subrange(1, cells.len() as int);
        match cells[0] {
            None => {
                lemma_render_cells_plain(rest, gap + 1);
                assert(render_cells(cells, gap) == render_cells(rest, gap + 1));
            },
            Some(st) => {
                lemma_render_cells_plain(rest, 0);
                assert(fen_char(st) != '/' && fen_char(st) != ' ');
                let pre = if gap > 0 {
                    seq![digit_char(gap)]
                } else {
                    Seq::<char>::empty()
                };
                if gap > 0 {
                    lemma_digit(gap);
                }
                let tail = render_cells(rest, 0);
                let r = pre + seq![fen_char(st)] + tail;
                assert(render_cells(cells, gap) == r);
                assert forall|i: int| 0 <= i < r.len() implies #[trigger] r[i] != '/' && r[i] != ' ' by {
                    if i < pre.len() {
                        assert(r[i] == pre[i]);
                    } else if i == pre.len() {
                        assert(r[i] == fen_char(st));
                    } else {
                        assert(r[i] == tail[i - pre.len() - 1]);
                    }
                }
            },
        }
    } else if gap > 0 {
        lemma_digit(gap);
        assert(render_cells(cells, gap) == seq![digit_char(gap)]);
    }
}

/// The rows that `render_rows` wrote come apart again at `/`.
proof fn lemma_split_rows(g: Seq<Option<Stone>>, k: int)
    requires
        g.len() == 64,
        1 <= k <= 8,
    ensures
        split_on(render_rows(g, k), '/') == Seq::new(k as nat, |i: int| render_cells(grid_row(g, i), 0)),
    decreases k,
{
    lemma_render_cells_plain(grid_row(g, k - 1), 0);
    lemma_split_single(render_cells(grid_row(g, k - 1), 0), '/');
    if k == 1 {
        assert(split_on(render_rows(g, 1), '/') =~= Seq::new(1, |i: int| render_cells(grid_row(g, i), 0)));
    } else {
        lemma_split_rows(g, k - 1);
        lemma_split_concat(render_rows(g, k - 1), render_cells(grid_row(g, k - 1), 0), '/');
        assert(split_on(render_rows(g, k), '/') =~= Seq::new(k as nat, |i: int| render_cells(grid_row(g, i), 0)));
    }
}

/// Reading the placement field that a grid writes gives the grid back.
pub proof fn lemma_placement_round_trip(g: Seq<Option<Stone>>)
    requires
        g.len() == 64,
    ensures
        placement_of(placement_field(g)) == Some(g),
{
    lemma_split_rows(g, 8);
    let rows = split_on(placement_field(g), '/');
    assert forall|k: int| 0 <= k < rows.len() implies (#[trigger] row_of(rows[k])) == Some(grid_row(g, k)) by {
        assert(row_of_nothing().len() == 8);
        lemma_row_scan_render(grid_row(g, k), 0, 0, row_of_nothing());
        assert(grid_row(g, k).subrange(0, 8) =~= grid_row(g, k));
    }
    let want = placement_of(placement_field(g)).unwrap();
    assert forall|i: int| 0 <= i < 64 implies #[trigger] want[i] == g[i] by {
        assert(row_of(rows[i / 8]) == Some(grid_row(g, i / 8)));
        assert(grid_row(g, i / 8)[i % 8] == g[(i / 8) * 8 + i % 8]);
    }
    assert(want =~= g);
}

/// A written placement field holds no space.
pub proof fn lemma_placement_plain(g: Seq<Option<Stone>>, k: int)
    requires
        g.len() == 64,
        0 <= k <= 8,
    ensures
        forall|i: int| 0 <= i < render_rows(g, k).len() ==> #[trigger] render_rows(g, k)[i] != ' ',
    decreases k,
{
    if k >= 1 {
        lemma_render_cells_plain(grid_row(g, k - 1), 0);
        if k > 1 {
            lemma_placement_plain(g, k - 1);
            let a = render_rows(g, k - 1).push('/');
            let b = render_cells(grid_row(g, k - 1), 0);
            assert forall|i: int| 0 <= i < (a + b).len() implies #[trigger] (a + b)[i] != ' ' by {
                if i < a.len() - 1 {
                    assert((a + b)[i] == render_rows(g, k - 1)[i]);
                } else if i >= a.len() {
                    assert((a + b)[i] == b[i - a.len()]);
                }
            }
        }
    }
}

} // verus!
