use vstd::prelude::*;

use crate::palette::spec_cell_color;

verus! {

/// The maze: one row of cell characters per line of its file, the first
/// row at the top. A space is an empty cell.
pub type Maze = Vec<Vec<char>>;

/// The character of the cell in column `i` of row `j`, if the maze has one.
pub open spec fn maze_cell(m: Seq<Seq<char>>, i: int, j: int) -> Option<char> {
    if 0 <= j < m.len() && 0 <= i < m[j].len() {
        Some(m[j][i])
    } else {
        None
    }
}

/// Cells that can be walked and seen through: empty cells, the spawn
/// point `p` and the goal `g` / `G`.
pub open spec fn is_open_char(c: char) -> bool {
    c == ' ' || c == 'p' || c == 'g' || c == 'G'
}

/// The cell in column `i` of row `j` blocks movement and rays; everything
/// outside the maze counts as wall.
pub open spec fn spec_is_wall(m: Seq<Seq<char>>, j: int, i: int) -> bool {
    match maze_cell(m, i, j) {
        Some(c) => !is_open_char(c),
        None => true,
    }
}

/// The character of the cell in column `i` of row `j`, `None` outside the maze.
pub fn cell_at(maze: &Maze, i: usize, j: usize) -> (c: Option<char>)
    ensures
        c == maze_cell(maze.deep_view(), i as int, j as int),
{
    if j < maze.len() && i < maze[j].len() {
        Some(maze[j][i])
    } else {
        None
    }
}

/// Whether the cell in column `i` of row `j` is a wall (out of the maze
/// counts as wall).
pub fn is_wall(maze: &Maze, j: usize, i: usize) -> (wall: bool)
    ensures
        wall == spec_is_wall(maze.deep_view(), j as int, i as int),
{
    match cell_at(maze, i, j) {
        Some(c) => !(c == ' ' || c == 'p' || c == 'g' || c == 'G'),
        None => true,
    }
}

/// Number of rows of the maze.
pub fn height_in_cells(maze: &Maze) -> (h: usize)
    ensures
        h == maze.deep_view().len(),
{
    maze.len()
}

/// The length of the longest of the first `n` rows.
pub open spec fn max_row_len(m: Seq<Seq<char>>, n: int) -> int
    decreases n,
{
    if n <= 0 {
        0
    } else {
        let rest = max_row_len(m, n - 1);
        if m[n - 1].len() > rest {
            m[n - 1].len() as int
        } else {
            rest
        }
    }
}

/// The longest row bounds every row and is one of them (or 0).
pub proof fn lemma_max_row_len(m: Seq<Seq<char>>, n: int)
    requires
        0 <= n <= m.len(),
    ensures
        forall|j: int| 0 <= j < n ==> m[j].len() <= max_row_len(m, n),
        n == 0 ==> max_row_len(m, n) == 0,
        n > 0 ==> exists|j: int| 0 <= j < n && m[j].len() == max_row_len(m, n),
    decreases n,
{
    if n > 0 {
        lemma_max_row_len(m, n - 1);
        if m[n - 1].len() > max_row_len(m, n - 1) {
            assert(m[n - 1].len() == max_row_len(m, n));
        } else if n - 1 > 0 {
            let j = choose|j: int| 0 <= j < n - 1 && m[j].len() == max_row_len(m, n - 1);
            assert(m[j].len() == max_row_len(m, n));
        }
    }
}

/// Number of columns of the maze: the length of its longest row.
pub fn width_in_cells(maze: &Maze) -> (w: usize)
    ensures
        w == max_row_len(maze.deep_view(), maze.deep_view().len() as int),
{
    let ghost m = maze.deep_view();
    let mut w: usize = 0;
    let mut j: usize = 0;
    while j < maze.len()
        invariant
            m == maze.deep_view(),
            j <= maze.len(),
            w == max_row_len(m, j as int),
        decreases maze.len() - j,
    {
        let len = maze[j].len();
        if len > w {
            w = len;
        }
        j = j + 1;
    }
    w
}

/// A cell marked `c` answers a search for `target`; a search for the goal
/// `g` also accepts its upper-case form.
pub open spec fn cell_matches(c: char, target: char) -> bool {
    c == target || (target == 'g' && c == 'G')
}

/// The cell in column `i` of row `j` exists and answers a search for `target`.
pub open spec fn match_at(m: Seq<Seq<char>>, target: char, i: int, j: int) -> bool {
    &&& 0 <= j < m.len()
    &&& 0 <= i < m[j].len()
    &&& cell_matches(m[j][i], target)
}

/// The first cell, reading rows top to bottom and each row left to right,
/// that answers a search for `target`, as `(column, row)`.
pub fn find_cell(maze: &Maze, target: char) -> (found: Option<(usize, usize)>)
    ensures
        match found {
            Some((i, j)) => {
                &&& match_at(maze.deep_view(), target, i as int, j as int)
                &&& forall|i2: int, j2: int|
                    (j2 < j || (j2 == j && i2 < i)) ==> !#[trigger] match_at(
                        maze.deep_view(),
                        target,
                        i2,
                        j2,
                    )
            },
            None => forall|i2: int, j2: int| !#[trigger] match_at(maze.deep_view(), target, i2, j2),
        },
{
    let ghost m = maze.deep_view();
    let mut j: usize = 0;
    while j < maze.len()
        invariant
            m == maze.deep_view(),
            j <= maze.len(),
            forall|i2: int, j2: int| j2 < j ==> !#[trigger] match_at(m, target, i2, j2),
        decreases maze.len() - j,
    {
        let row = &maze[j];
        let mut i: usize = 0;
        while i < row.len()
            invariant
                m == maze.deep_view(),
                j < maze.len(),
                row@ == maze@[j as int]@,
                i <= row.len(),
                forall|i2: int, j2: int|
                    (j2 < j || (j2 == j && i2 < i)) ==> !#[trigger] match_at(m, target, i2, j2),
            decreases row.len() - i,
        {
            let c = row[i];
            if c == target || (target == 'g' && c == 'G') {
                return Some((i, j));
            }
            i = i + 1;
        }
        j = j + 1;
    }
    None
}

/// The cell that holds the world point `(x, y)` (in pixels of a maze whose
/// cells are `block_size` pixels wide) is a goal cell.
pub open spec fn spec_is_goal_at(m: Seq<Seq<char>>, x: int, y: int, block_size: int) -> bool {
    match maze_cell(m, x / block_size, y / block_size) {
        Some(c) => c == 'g' || c == 'G',
        None => false,
    }
}

/// Whether the world point `(x, y)` lies in a goal cell.
pub fn is_goal_at(maze: &Maze, x: usize, y: usize, block_size: usize) -> (goal: bool)
    requires
        block_size > 0,
    ensures
        goal == spec_is_goal_at(maze.deep_view(), x as int, y as int, block_size as int),
{
    match cell_at(maze, x / block_size, y / block_size) {
        Some(c) => c == 'g' || c == 'G',
        None => false,
    }
}

/// What a ray sees at the world point `(x, y)`: the character of the wall
/// cell holding it (`#` for the outside of the maze), or nothing when the
/// cell is open.
pub open spec fn spec_ray_hit(m: Seq<Seq<char>>, x: int, y: int, block_size: int) -> Option<char> {
    let i = x / block_size;
    let j = y / block_size;
    if spec_is_wall(m, j, i) {
        match maze_cell(m, i, j) {
            Some(c) => Some(c),
            None => Some('#'),
        }
    } else {
        None
    }
}

/// The wall that a ray reaching the world point `(x, y)` hits there, if any.
pub fn ray_hit(maze: &Maze, x: usize, y: usize, block_size: usize) -> (hit: Option<char>)
    requires
        block_size > 0,
    ensures
        hit == spec_ray_hit(maze.deep_view(), x as int, y as int, block_size as int),
{
    let i = x / block_size;
    let j = y / block_size;
    if is_wall(maze, j, i) {
        match cell_at(maze, i, j) {
            Some(c) => Some(c),
            None => Some('#'),
        }
    } else {
        None
    }
}

/// The world point `p` exists (it has no negative coordinate, marked by
/// `None`) and lies in an open cell.
pub open spec fn point_is_free(m: Seq<Seq<char>>, p: Option<(usize, usize)>, block_size: int) -> bool {
    match p {
        Some((x, y)) => !spec_is_wall(m, (y as int) / block_size, (x as int) / block_size),
        None => false,
    }
}

/// Whether every one of `points` lies in an open cell; a point given as
/// `None` stands for one with a negative coordinate, which never does.
pub fn area_is_free(maze: &Maze, points: &[Option<(usize, usize)>], block_size: usize) -> (free: bool)
    requires
        block_size > 0,
    ensures
        free == forall|k: int|
            0 <= k < points@.len() ==> point_is_free(
                maze.deep_view(),
                #[trigger] points@[k],
                block_size as int,
            ),
{
    let mut k: usize = 0;
    while k < points.len()
        invariant
            k <= points@.len(),
            block_size > 0,
            forall|k2: int|
                0 <= k2 < k ==> point_is_free(
                    maze.deep_view(),
                    #[trigger] points@[k2],
                    block_size as int,
                ),
        decreases points@.len() - k,
    {
        match points[k] {
            Some((x, y)) => {
                if is_wall(maze, y / block_size, x / block_size) {
                    assert(!point_is_free(maze.deep_view(), points@[k as int], block_size as int));
                    return false;
                }
            },
            None => {
                assert(!point_is_free(maze.deep_view(), points@[k as int], block_size as int));
                return false;
            },
        }
        k = k + 1;
    }
    true
}

/// A line without the carriage return that ends it, if one does.
pub open spec fn strip_cr(line: Seq<char>) -> Seq<char> {
    if line.len() > 0 && line.last() == '\r' {
        line.drop_last()
    } else {
        line
    }
}

/// Reading `s` character by character: the lines already ended by a
/// newline (each without its `\r\n` or `\n`) and the line still open.
pub open spec fn scan_lines(s: Seq<char>) -> (Seq<Seq<char>>, Seq<char>)
    decreases s.len(),
{
    if s.len() == 0 {
        (Seq::empty(), Seq::empty())
    } else {
        let (done, cur) = scan_lines(s.drop_last());
        if s.last() == '\n' {
            (done.push(strip_cr(cur)), Seq::empty())
        } else {
            (done, cur.push(s.last()))
        }
    }
}

/// The lines of `s`, split at `\n` and `\r\n`; a last line without a
/// newline counts when it is not empty.
pub open spec fn text_lines(s: Seq<char>) -> Seq<Seq<char>> {
    let (done, cur) = scan_lines(s);
    if cur.len() > 0 {
        done.push(cur)
    } else {
        done
    }
}

/// The maze written in `text`: one row per line, one cell per character.
pub fn parse_maze(text: &str) -> (maze: Maze)
    ensures
        maze.deep_view() == text_lines(text@),
{
    let n = text.unicode_len();
    let mut rows: Vec<Vec<char>> = Vec::new();
    let mut cur: Vec<char> = Vec::new();
    let mut i: usize = 0;
    proof {
        assert(text@.take(0) =~= Seq::<char>::empty());
    }
    while i < n
        invariant
            n == text@.len(),
            i <= n,
            (rows.deep_view(), cur@) == scan_lines(text@.take(i as int)),
        decreases n - i,
    {
        let c = text.get_char(i);
        let ghost before = rows.deep_view();
        let ghost line = cur@;
        proof {
            assert(text@.take(i + 1).drop_last() =~= text@.take(i as int));
            assert(text@.take(i + 1).last() == c);
        }
        if c == '\n' {
            let len = cur.len();
            if len > 0 && cur[len - 1] == '\r' {
                cur.pop();
                assert(cur@ =~= line.drop_last());
            }
            let ghost pushed = cur;
            rows.push(cur);
            cur = Vec::new();
            proof {
                assert(pushed.deep_view() =~= pushed@);
                assert(rows.deep_view() =~= before.push(strip_cr(line)));
            }
        } else {
            cur.push(c);
        }
        i = i + 1;
    }
    proof {
        assert(text@.take(n as int) =~= text@);
    }
    if cur.len() > 0 {
        let ghost before = rows.deep_view();
        let ghost line = cur@;
        let ghost pushed = cur;
        rows.push(cur);
        proof {
            assert(pushed.deep_view() =~= pushed@);
            assert(rows.deep_view() =~= before.push(line));
        }
    }
    rows
}

/// The player can stand exactly where rays pass through: a point lies in an
/// open cell if and only if a ray reaching it hits nothing there.
pub proof fn lemma_free_iff_ray_passes(m: Seq<Seq<char>>, x: usize, y: usize, block_size: int)
    requires
        block_size > 0,
    ensures
        point_is_free(m, Some((x, y)), block_size) <==> spec_ray_hit(
            m,
            x as int,
            y as int,
            block_size,
        ) is None,
{
}

/// Goal cells are open: a point in a goal cell is free to stand on.
pub proof fn lemma_goal_is_open(m: Seq<Seq<char>>, x: usize, y: usize, block_size: int)
    requires
        block_size > 0,
        spec_is_goal_at(m, x as int, y as int, block_size),
    ensures
        point_is_free(m, Some((x, y)), block_size),
{
}

/// Which cells are walls: a cell of the maze is open exactly when it holds
/// a space, the spawn `p` or the goal `g` / `G`; every other character,
/// and everything outside the maze, is wall.
pub proof fn lemma_wall_cells(m: Seq<Seq<char>>, i: int, j: int)
    ensures
        match maze_cell(m, i, j) {
            Some(c) => spec_is_wall(m, j, i) <==> !(c == ' ' || c == 'p' || c == 'g' || c == 'G'),
            None => spec_is_wall(m, j, i),
        },
{
}

/// Every character drawn in a wall colour of its own (`+`, `-`, `|`, `*`)
/// is a wall: a ray reaching its cell stops there and reports it, and the
/// player cannot stand in it.
pub proof fn lemma_coloured_walls_block(m: Seq<Seq<char>>, x: usize, y: usize, block_size: int)
    requires
        block_size > 0,
        ({
            let c = maze_cell(m, x as int / block_size, y as int / block_size);
            c is Some && (c->0 == '+' || c->0 == '-' || c->0 == '|' || c->0 == '*')
        }),
    ensures
        spec_is_wall(m, y as int / block_size, x as int / block_size),
        spec_ray_hit(m, x as int, y as int, block_size) == maze_cell(
            m,
            x as int / block_size,
            y as int / block_size,
        ),
        !point_is_free(m, Some((x, y)), block_size),
{
}

/// Any character with a colour other than the plain wall colour, except
/// the goal, is a wall.
pub proof fn lemma_colour_marks_wall(m: Seq<Seq<char>>, i: int, j: int)
    requires
        maze_cell(m, i, j) is Some,
        spec_cell_color(maze_cell(m, i, j)->0) != 0xFFDDDD,
        maze_cell(m, i, j)->0 != 'g',
        maze_cell(m, i, j)->0 != 'G',
    ensures
        spec_is_wall(m, j, i),
{
}

/// The cell looked up in column `i` of row `j` is the `i`-th character of
/// the `j`-th line, when both exist.
pub proof fn lemma_maze_cell_position(m: Seq<Seq<char>>, i: int, j: int)
    ensures
        maze_cell(m, i, j) is Some <==> (0 <= j && j < m.len() && 0 <= i && i < m[j].len()),
        maze_cell(m, i, j) is Some ==> maze_cell(m, i, j)->0 == m[j][i],
{
}

/// A search for `target` accepts exactly the cells marked `target`, and
/// for the goal `g` also those marked `G`.
pub proof fn lemma_search_matches(c: char, target: char)
    ensures
        cell_matches(c, target) <==> (c == target || (target == 'g' && c == 'G')),
{
}

/// Scanning text never leaves a newline inside a line.
proof fn lemma_scan_no_newline(s: Seq<char>)
    ensures
        forall|r: int, k: int|
            0 <= r < scan_lines(s).0.len() && 0 <= k < scan_lines(s).0[r].len() ==> #[trigger] scan_lines(
                s,
            ).0[r][k] != '\n',
        forall|k: int| 0 <= k < scan_lines(s).1.len() ==> #[trigger] scan_lines(s).1[k] != '\n',
    decreases s.len(),
{
    if s.len() > 0 {
        lemma_scan_no_newline(s.drop_last());
        let (done, cur) = scan_lines(s.drop_last());
        if s.last() == '\n' {
            assert forall|r: int, k: int|
                0 <= r < scan_lines(s).0.len() && 0 <= k < scan_lines(s).0[r].len() implies #[trigger] scan_lines(
                    s,
                ).0[r][k] != '\n' by {
                if r == done.len() {
                    assert(strip_cr(cur)[k] == cur[k]);
                } else {
                    assert(scan_lines(s).0[r] == done[r]);
                }
            }
        } else {
            assert forall|k: int| 0 <= k < scan_lines(s).1.len() implies #[trigger] scan_lines(
                s,
            ).1[k] != '\n' by {
                if k < cur.len() {
                    assert(scan_lines(s).1[k] == cur[k]);
                }
            }
        }
    }
}

/// The maze's rows are the text's lines: no row holds a newline, and text
/// with no newline at all is a single row (or none when empty).
pub proof fn lemma_lines_split_at_newlines(s: Seq<char>)
    ensures
        forall|r: int, k: int|
            0 <= r < text_lines(s).len() && 0 <= k < text_lines(s)[r].len() ==> #[trigger] text_lines(
                s,
            )[r][k] != '\n',
        (forall|k: int| 0 <= k < s.len() ==> s[k] != '\n') ==> text_lines(s) == (if s.len() == 0 {
            Seq::<Seq<char>>::empty()
        } else {
            seq![s]
        }),
{
    lemma_scan_no_newline(s);
    let (done, cur) = scan_lines(s);
    assert forall|r: int, k: int|
        0 <= r < text_lines(s).len() && 0 <= k < text_lines(s)[r].len() implies #[trigger] text_lines(
            s,
        )[r][k] != '\n' by {
        if r < done.len() {
            assert(text_lines(s)[r] == done[r]);
            assert(scan_lines(s).0[r][k] != '\n');
        } else {
            assert(text_lines(s)[r] == cur);
            assert(scan_lines(s).1[k] != '\n');
        }
    }
    if forall|k: int| 0 <= k < s.len() ==> s[k] != '\n' {
        lemma_scan_single_line(s);
    }
}

proof fn lemma_scan_single_line(s: Seq<char>)
    requires
        forall|k: int| 0 <= k < s.len() ==> s[k] != '\n',
    ensures
        scan_lines(s) == (Seq::<Seq<char>>::empty(), s),
    decreases s.len(),
{
    if s.len() > 0 {
        lemma_scan_single_line(s.drop_last());
        assert(s.drop_last().push(s.last()) =~= s);
    }
}

/// A line ended by `\r\n` becomes one row without its line end, and so
/// does a line ended by `\n` alone when it has no carriage return of its own.
pub proof fn lemma_line_endings(a: Seq<char>)
    requires
        forall|k: int| 0 <= k < a.len() ==> a[k] != '\n',
    ensures
        (a.len() == 0 || a.last() != '\r') ==> text_lines(a.push('\n')) == seq![a],
        text_lines(a.push('\r').push('\n')) == seq![a],
{
    lemma_scan_single_line(a);
    assert forall|k: int| 0 <= k < a.push('\r').len() implies a.push('\r')[k] != '\n' by {
        if k < a.len() {
            assert(a.push('\r')[k] == a[k]);
        }
    }
    lemma_scan_single_line(a.push('\r'));
    assert(a.push('\n').drop_last() =~= a);
    assert(a.push('\r').push('\n').drop_last() =~= a.push('\r'));
    assert(a.push('\r').drop_last() =~= a);
    assert(strip_cr(a.push('\r')) =~= a);
}

/// A point with a negative coordinate is never free, and a point lies in a
/// goal cell exactly when the cell holding it is marked `g` or `G`.
pub proof fn lemma_points_and_goals(m: Seq<Seq<char>>, x: usize, y: usize, block_size: int)
    requires
        block_size > 0,
    ensures
        !point_is_free(m, None, block_size),
        spec_is_goal_at(m, x as int, y as int, block_size) <==> (maze_cell(
            m,
            x as int / block_size,
            y as int / block_size,
        ) == Some('g') || maze_cell(m, x as int / block_size, y as int / block_size) == Some(
            'G',
        )),
{
}

} // verus!
