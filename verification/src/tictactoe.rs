use vstd::prelude::*;

verus! {

/// The content of one board cell: empty, or one of the two players' marks.
#[derive(Clone, Copy, PartialEq, Eq, Structural, Debug)]
pub enum Mark {
    Unmarked,
    X,
    O,
}

/// The ordinal of a cell label in the fixed alphabet `a..z` then `A..Z`,
/// or `-1` for a character that is no label.
pub open spec fn letter_ord(c: char) -> int {
    if 'a' <= c && c <= 'z' {
        c as int - 'a' as int
    } else if 'A' <= c && c <= 'Z' {
        26 + c as int - 'A' as int
    } else {
        -1
    }
}

/// The label assigned to the cell with row-major index `i`:
/// `a..z` for the first 26 cells, `A..Z` after that.
pub open spec fn spec_label(i: int) -> char
    recommends
        0 <= i < 52,
{
    if i < 26 {
        (('a' as int + i) as u8) as char
    } else {
        (('A' as int + i - 26) as u8) as char
    }
}

/// Returns the label of the cell with row-major index `i`.
pub fn label_for(i: usize) -> (c: char)
    requires
        i < 52,
    ensures
        c == spec_label(i as int),
        letter_ord(c) == i as int,
{
    if i < 26 {
        (97 + i as u8) as char
    } else {
        (65 + (i - 26) as u8) as char
    }
}

/// Returns the row-major cell index of a label, or `None` for a
/// character that is no label.
pub fn letter_index(c: char) -> (r: Option<usize>)
    ensures
        r is Some <==> letter_ord(c) >= 0,
        r is Some ==> r->0 == letter_ord(c) && r->0 < 52,
{
    if 'a' <= c && c <= 'z' {
        Some((c as u32 - 97) as usize)
    } else if 'A' <= c && c <= 'Z' {
        Some((c as u32 - 65) as usize + 26)
    } else {
        None
    }
}

/// A square tic-tac-toe board of side `size`, each cell addressed either by
/// `(row, col)` or by its single-letter label, assigned in row-major order.
pub struct TicTacToe {
    size: usize,
    board: Vec<Vec<Mark>>,
}

impl TicTacToe {
    /// The side length of the board.
    pub closed spec fn size_spec(&self) -> int {
        self.size as int
    }

    /// The mark in the cell at `(r, c)`.
    pub closed spec fn cell(&self, r: int, c: int) -> Mark {
        self.board@[r]@[c]
    }

    /// Well-formedness: the side length is within bounds and the grid is
    /// exactly `size` rows of `size` cells.
    pub closed spec fn wf(&self) -> bool {
        &&& 2 <= self.size <= 7
        &&& self.board@.len() == self.size
        &&& forall|r: int| 0 <= r < self.size ==> (#[trigger] self.board@[r])@.len() == self.size
    }

    /// Whether `c` is a label that maps to a cell of this board.
    pub open spec fn label_maps(&self, c: char) -> bool {
        0 <= letter_ord(c) < self.size_spec() * self.size_spec()
    }

    /// The row of the cell that label `c` maps to.
    pub open spec fn label_row(&self, c: char) -> int {
        letter_ord(c) / self.size_spec()
    }

    /// The column of the cell that label `c` maps to.
    pub open spec fn label_col(&self, c: char) -> int {
        letter_ord(c) % self.size_spec()
    }

    /// Whether `c` maps to a cell that is still unmarked.
    pub open spec fn valid_cell(&self, c: char) -> bool {
        self.label_maps(c) && self.cell(self.label_row(c), self.label_col(c)) == Mark::Unmarked
    }

    /// Every cell of row `r` holds `m`.
    pub open spec fn row_won(&self, r: int, m: Mark) -> bool {
        forall|c: int| 0 <= c < self.size_spec() ==> self.cell(r, c) == m
    }

    /// Every cell of column `c` holds `m`.
    pub open spec fn col_won(&self, c: int, m: Mark) -> bool {
        forall|r: int| 0 <= r < self.size_spec() ==> self.cell(r, c) == m
    }

    /// Every cell of the main diagonal holds `m`.
    pub open spec fn diag_won(&self, m: Mark) -> bool {
        forall|i: int| 0 <= i < self.size_spec() ==> self.cell(i, i) == m
    }

    /// Every cell of the anti-diagonal holds `m`.
    pub open spec fn antidiag_won(&self, m: Mark) -> bool {
        forall|r: int, c: int|
            0 <= r < self.size_spec() && r + c == self.size_spec() - 1 ==> #[trigger] self.cell(
                r,
                c,
            ) == m
    }

    /// `m` occupies an entire row, an entire column, or either diagonal.
    pub open spec fn has_won(&self, m: Mark) -> bool {
        ||| exists|r: int| 0 <= r < self.size_spec() && self.row_won(r, m)
        ||| exists|c: int| 0 <= c < self.size_spec() && self.col_won(c, m)
        ||| self.diag_won(m)
        ||| self.antidiag_won(m)
    }

    /// The character shown for the cell at `(r, c)`: the mark's glyph if the
    /// cell is taken, its label otherwise.
    pub open spec fn cell_char(&self, r: int, c: int) -> char {
        match self.cell(r, c) {
            Mark::Unmarked => spec_label(r * self.size_spec() + c),
            Mark::X => 'X',
            Mark::O => 'O',
        }
    }

    /// The text of one cell: its character padded with spaces, followed by a
    /// column divider unless it ends the row.
    pub open spec fn cell_text(&self, r: int, c: int) -> Seq<char> {
        seq![' ', self.cell_char(r, c), ' '] + if c < self.size_spec() - 1 {
            seq!['|']
        } else {
            Seq::empty()
        }
    }

    /// The text of the first `n` cells of row `r`.
    pub open spec fn row_text_upto(&self, r: int, n: int) -> Seq<char>
        decreases n,
    {
        if n <= 0 {
            Seq::empty()
        } else {
            self.row_text_upto(r, n - 1) + self.cell_text(r, n - 1)
        }
    }

    /// The dashed rule drawn between two rows, framed by line breaks.
    pub open spec fn row_separator(&self) -> Seq<char> {
        seq!['\n'] + Seq::new((4 * self.size_spec() - 1) as nat, |i: int| '-') + seq!['\n']
    }

    /// The text of row `r`, with the separator after it unless it is last.
    pub open spec fn row_chunk(&self, r: int) -> Seq<char> {
        self.row_text_upto(r, self.size_spec()) + if r < self.size_spec() - 1 {
            self.row_separator()
        } else {
            Seq::empty()
        }
    }

    /// The text of the first `n` rows.
    pub open spec fn render_upto(&self, n: int) -> Seq<char>
        decreases n,
    {
        if n <= 0 {
            Seq::empty()
        } else {
            self.render_upto(n - 1) + self.row_chunk(n - 1)
        }
    }

    /// The whole rendered board: every row, and a final line break.
    pub open spec fn rendered(&self) -> Seq<char> {
        self.render_upto(self.size_spec()) + seq!['\n']
    }

    /// A well-formed board's side length lies within the accepted bounds.
    pub proof fn lemma_wf_size_bounds(&self)
        requires
            self.wf(),
        ensures
            2 <= self.size_spec() <= 7,
    {
    }

    /// The side length of the board.
    pub fn size(&self) -> (n: usize)
        ensures
            n as int == self.size_spec(),
    {
        self.size
    }

    /// Constructs a fresh game of the given size: every cell unmarked.
    pub fn new(size: usize) -> (g: TicTacToe)
        requires
            2 <= size <= 7,
        ensures
            g.wf(),
            g.size_spec() == size as int,
            forall|r: int, c: int|
                0 <= r < size && 0 <= c < size ==> g.cell(r, c) == Mark::Unmarked,
    {
        TicTacToe { size, board: Self::initialize_board(size) }
    }

    fn initialize_board(size: usize) -> (b: Vec<Vec<Mark>>)
        requires
            size <= 7,
        ensures
            b@.len() == size,
            forall|r: int| 0 <= r < size ==> (#[trigger] b@[r])@.len() == size,
            forall|r: int, c: int|
                0 <= r < size && 0 <= c < size ==> (#[trigger] b@[r]@[c]) == Mark::Unmarked,
    {
        let mut board: Vec<Vec<Mark>> = Vec::new();
        for i in 0..size
            invariant
                board@.len() == i,
                forall|r: int| 0 <= r < i ==> (#[trigger] board@[r])@.len() == size,
                forall|r: int, c: int|
                    0 <= r < i && 0 <= c < size ==> (#[trigger] board@[r]@[c]) == Mark::Unmarked,
        {
            let mut row: Vec<Mark> = Vec::new();
            for j in 0..size
                invariant
                    row@.len() == j,
                    forall|c: int| 0 <= c < j ==> (#[trigger] row@[c]) == Mark::Unmarked,
            {
                row.push(Mark::Unmarked);
            }
            board.push(row);
        }
        board
    }

    /// True iff `cell` is a label of this board and its cell is unmarked.
    pub fn check_valid_cell(&self, cell: char) -> (r: bool)
        requires
            self.wf(),
        ensures
            r == self.valid_cell(cell),
    {
        match letter_index(cell) {
            Some(i) => {
                proof {
                    lemma_square_bounded(self.size as int);
                }
                if i < self.size * self.size {
                    proof {
                        lemma_index_to_coords(i as int, self.size as int);
                    }
                    self.board[i / self.size][i % self.size] == Mark::Unmarked
                } else {
                    false
                }
            },
            None => false,
        }
    }

    fn check_row(&self, row: usize, mark: Mark) -> (r: bool)
        requires
            self.wf(),
            row < self.size_spec(),
        ensures
            r == self.row_won(row as int, mark),
    {
        for j in 0..self.size
            invariant
                self.wf(),
                row < self.size_spec(),
                forall|c: int| 0 <= c < j ==> self.cell(row as int, c) == mark,
        {
            if self.board[row][j] != mark {
                assert(self.cell(row as int, j as int) != mark);
                return false;
            }
        }
        true
    }

    fn check_col(&self, col: usize, mark: Mark) -> (r: bool)
        requires
            self.wf(),
            col < self.size_spec(),
        ensures
            r == self.col_won(col as int, mark),
    {
        for i in 0..self.size
            invariant
                self.wf(),
                col < self.size_spec(),
                forall|r: int| 0 <= r < i ==> self.cell(r, col as int) == mark,
        {
            if self.board[i][col] != mark {
                assert(self.cell(i as int, col as int) != mark);
                return false;
            }
        }
        true
    }

    fn check_diagonal(&self, mark: Mark) -> (r: bool)
        requires
            self.wf(),
        ensures
            r == self.diag_won(mark),
    {
        for i in 0..self.size
            invariant
                self.wf(),
                forall|k: int| 0 <= k < i ==> self.cell(k, k) == mark,
        {
            if self.board[i][i] != mark {
                assert(self.cell(i as int, i as int) != mark);
                return false;
            }
        }
        true
    }

    fn check_antidiagonal(&self, mark: Mark) -> (r: bool)
        requires
            self.wf(),
        ensures
            r == self.antidiag_won(mark),
    {
        for i in 0..self.size
            invariant
                self.wf(),
                forall|r: int, c: int|
                    0 <= r < i && r + c == self.size_spec() - 1 ==> #[trigger] self.cell(r, c)
                        == mark,
        {
            let n = self.size - 1 - i;
            if self.board[i][n] != mark {
                assert(self.cell(i as int, n as int) != mark);
                return false;
            }
        }
        true
    }

    /// True iff `mark` occupies a full row, column, or either diagonal.
    pub fn check_win(&self, mark: Mark) -> (r: bool)
        requires
            self.wf(),
        ensures
            r == self.has_won(mark),
    {
        for row in 0..self.size
            invariant
                self.wf(),
                forall|r: int| 0 <= r < row ==> !self.row_won(r, mark),
        {
            if self.check_row(row, mark) {
                return true;
            }
        }

        for col in 0..self.size
            invariant
                self.wf(),
                forall|c: int| 0 <= c < col ==> !self.col_won(c, mark),
        {
            if self.check_col(col, mark) {
                return true;
            }
        }

        self.check_diagonal(mark) || self.check_antidiagonal(mark)
    }

    /// Renders the board as a text grid: unmarked cells show their label,
    /// marked cells their mark's glyph, with column dividers inside a row
    /// and a dashed rule between rows.
    #[verifier::rlimit(60)]
    pub fn display_board(&self) -> (s: String)
        requires
            self.wf(),
        ensures
            s@ == self.rendered(),
    {
        let mut out: Vec<char> = Vec::new();
        for i in 0..self.size
            invariant
                self.wf(),
                out@ == self.render_upto(i as int),
        {
            for j in 0..self.size
                invariant
                    self.wf(),
                    i < self.size,
                    out@ == self.render_upto(i as int) + self.row_text_upto(i as int, j as int),
            {
                proof {
                    lemma_cell_index_bounded(i as int, j as int, self.size as int);
                }
                let ch = match self.board[i][j] {
                    Mark::Unmarked => label_for(i * self.size + j),
                    Mark::X => 'X',
                    Mark::O => 'O',
                };
                out.push(' ');
                out.push(ch);
                out.push(' ');
                if j < self.size - 1 {
                    out.push('|');
                }
                proof {
                    assert(out@ =~= self.render_upto(i as int) + self.row_text_upto(
                        i as int,
                        j as int + 1,
                    ));
                }
            }
            if i < self.size - 1 {
                out.push('\n');
                let dashes = 4 * self.size - 1;
                for k in 0..dashes
                    invariant
                        self.wf(),
                        i < self.size,
                        dashes == 4 * self.size_spec() - 1,
                        out@ == self.render_upto(i as int) + self.row_text_upto(
                            i as int,
                            self.size_spec(),
                        ) + seq!['\n'] + Seq::new(k as nat, |t: int| '-'),
                {
                    out.push('-');
                    proof {
                        assert(Seq::new(k as nat + 1, |t: int| '-') =~= Seq::new(
                            k as nat,
                            |t: int| '-',
                        ).push('-'));
                        assert(out@ =~= self.render_upto(i as int) + self.row_text_upto(
                            i as int,
                            self.size_spec(),
                        ) + seq!['\n'] + Seq::new(k as nat + 1, |t: int| '-'));
                    }
                }
                out.push('\n');
            }
            proof {
                assert(out@ =~= self.render_upto(i as int + 1));
            }
        }
        out.push('\n');
        proof {
            assert(out@ =~= self.rendered());
        }
        chars_to_string(&out)
    }

    /// Places `mark` in the cell that `cell` maps to, overwriting whatever
    /// was there; a character that is no label of this board changes nothing.
    pub fn update_board(&mut self, cell: char, mark: Mark)
        requires
            old(self).wf(),
        ensures
            final(self).wf(),
            final(self).size_spec() == old(self).size_spec(),
            old(self).label_maps(cell) ==> final(self).cell(
                old(self).label_row(cell),
                old(self).label_col(cell),
            ) == mark,
            forall|r: int, c: int|
                0 <= r < old(self).size_spec() && 0 <= c < old(self).size_spec()
                    && !(old(self).label_maps(cell) && r == old(self).label_row(cell)
                    && c == old(self).label_col(cell)) ==> final(self).cell(r, c) == old(
                    self,
                ).cell(r, c),
    {
        match letter_index(cell) {
            Some(i) => {
                proof {
                    lemma_square_bounded(self.size as int);
                }
                if i < self.size * self.size {
                    proof {
                        lemma_index_to_coords(i as int, self.size as int);
                    }
                    let r = i / self.size;
                    let c = i % self.size;
                    self.board[r][c] = mark;
                }
            },
            None => {},
        }
    }
}

/// Law: the first 52 label ordinals round-trip through their labels, so
/// distinct ordinals get distinct labels.
pub proof fn lemma_labels_distinct()
    ensures
        forall|i: int| 0 <= i < 52 ==> #[trigger] letter_ord(spec_label(i)) == i,
        forall|i: int, j: int|
            0 <= i < 52 && 0 <= j < 52 && i != j ==> spec_label(i) != spec_label(j),
{
    assert forall|i: int, j: int|
        0 <= i < 52 && 0 <= j < 52 && i != j implies spec_label(i) != spec_label(j) by {
        assert(letter_ord(spec_label(i)) == i);
        assert(letter_ord(spec_label(j)) == j);
    }
}

/// Law: on a well-formed board the label map is a bijection onto the grid.
/// Every label that maps lands on a cell inside the grid, and the cell at
/// `(r, c)` is addressed by the label of ordinal `r * size + c` and, by
/// `lemma_labels_distinct`, by no other.
pub proof fn lemma_label_map_bijective(g: TicTacToe)
    requires
        g.wf(),
    ensures
        forall|ch: char| #[trigger] g.label_maps(ch) ==> 0 <= g.label_row(ch) < g.size_spec()
            && 0 <= g.label_col(ch) < g.size_spec(),
        forall|i: int|
            0 <= i < g.size_spec() * g.size_spec() ==> g.label_maps(#[trigger] spec_label(i))
                && g.label_row(spec_label(i)) == i / g.size_spec() && g.label_col(spec_label(i))
                == i % g.size_spec(),
{
    let s = g.size_spec();
    lemma_square_bounded(s);
    assert forall|ch: char| #[trigger] g.label_maps(ch) implies 0 <= g.label_row(ch) < s && 0
        <= g.label_col(ch) < s by {
        lemma_index_to_coords(letter_ord(ch), s);
    }
    assert forall|i: int| 0 <= i < s * s implies g.label_maps(#[trigger] spec_label(i))
        && g.label_row(spec_label(i)) == i / s && g.label_col(spec_label(i)) == i % s by {
        assert(letter_ord(spec_label(i)) == i);
    }
}

/// Law: the label of ordinal `r * size + c` addresses exactly the cell at
/// `(r, c)`.
pub proof fn lemma_cell_label(g: TicTacToe, r: int, c: int)
    requires
        g.wf(),
        0 <= r < g.size_spec(),
        0 <= c < g.size_spec(),
    ensures
        g.label_maps(spec_label(r * g.size_spec() + c)),
        g.label_row(spec_label(r * g.size_spec() + c)) == r,
        g.label_col(spec_label(r * g.size_spec() + c)) == c,
{
    let s = g.size_spec();
    let i = r * s + c;
    lemma_cell_index_bounded(r, c, s);
    assert(letter_ord(spec_label(i)) == i);
    assert(i / s == r && i % s == c) by (nonlinear_arith)
        requires
            i == r * s + c,
            0 <= r < s,
            0 <= c < s,
    ;
}

/// The position in the rendered text at which the character for the cell at
/// `(r, c)` of a board of side `size` stands.
pub open spec fn cell_char_pos(size: int, r: int, c: int) -> int {
    8 * size * r + 4 * c + 1
}

/// The shape of a partly rendered row: its length, and the character of
/// each rendered cell standing at position `4 * c + 1`.
proof fn lemma_row_text_shape(g: TicTacToe, r: int, n: int)
    requires
        g.wf(),
        0 <= n <= g.size_spec(),
    ensures
        g.row_text_upto(r, n).len() == if n < g.size_spec() {
            4 * n
        } else {
            4 * n - 1
        },
        forall|c: int|
            0 <= c < n ==> g.row_text_upto(r, n)[4 * c + 1] == #[trigger] g.cell_char(r, c),
    decreases n,
{
    if n > 0 {
        lemma_row_text_shape(g, r, n - 1);
        assert forall|c: int|
            0 <= c < n implies g.row_text_upto(r, n)[4 * c + 1] == #[trigger] g.cell_char(
            r,
            c,
        ) by {
            if c < n - 1 {
                assert(g.row_text_upto(r, n)[4 * c + 1] == g.row_text_upto(r, n - 1)[4 * c + 1]);
            } else {
                assert(g.row_text_upto(r, n)[4 * c + 1] == g.cell_text(r, n - 1)[1]);
            }
        }
    }
}

/// The shape of the first `n` rendered rows: their length, and the
/// character of each cell standing at `cell_char_pos`.
proof fn lemma_render_shape(g: TicTacToe, n: int)
    requires
        g.wf(),
        0 <= n <= g.size_spec(),
    ensures
        g.render_upto(n).len() == if n < g.size_spec() {
            8 * g.size_spec() * n
        } else {
            8 * g.size_spec() * n - 4 * g.size_spec() - 1
        },
        forall|r: int, c: int|
            0 <= r < n && 0 <= c < g.size_spec() ==> g.render_upto(n)[cell_char_pos(
                g.size_spec(),
                r,
                c,
            )] == #[trigger] g.cell_char(r, c),
    decreases n,
{
    let s = g.size_spec();
    if n > 0 {
        lemma_render_shape(g, n - 1);
        lemma_row_text_shape(g, n - 1, s);
        let prev = g.render_upto(n - 1);
        let chunk = g.row_chunk(n - 1);
        let row = g.row_text_upto(n - 1, s);
        assert(row.len() == 4 * s - 1);
        if n < s {
            assert(g.row_separator().len() == 1 + (4 * s - 1) + 1);
            assert(chunk.len() == 8 * s);
            assert(8 * s * (n - 1) + 8 * s == 8 * s * n) by (nonlinear_arith);
        } else {
            assert(chunk.len() == 4 * s - 1);
            assert(8 * s * (n - 1) + 4 * s - 1 == 8 * s * n - 4 * s - 1) by (nonlinear_arith);
        }
        assert forall|r: int, c: int|
            0 <= r < n && 0 <= c < s implies g.render_upto(n)[cell_char_pos(s, r, c)]
            == #[trigger] g.cell_char(r, c) by {
            let pos = cell_char_pos(s, r, c);
            if r < n - 1 {
                assert(0 <= pos < 8 * s * (n - 1)) by (nonlinear_arith)
                    requires
                        0 <= r < n - 1,
                        0 <= c < s,
                        2 <= s,
                        pos == 8 * s * r + 4 * c + 1,
                ;
                assert(g.render_upto(n)[pos] == prev[pos]);
            } else {
                assert(pos - 8 * s * (n - 1) == 4 * c + 1) by (nonlinear_arith)
                    requires
                        r == n - 1,
                        pos == 8 * s * r + 4 * c + 1,
                ;
                assert(g.render_upto(n)[pos] == chunk[4 * c + 1]);
                assert(chunk[4 * c + 1] == row[4 * c + 1]);
            }
        }
    }
}

/// Law: the rendered text has a fixed length, and the character for the
/// cell at `(r, c)` stands at `cell_char_pos(size, r, c)`: the mark's glyph
/// where a mark was placed, the cell's label where none was.
pub proof fn lemma_render_shows_cells(g: TicTacToe)
    requires
        g.wf(),
    ensures
        g.rendered().len() == 8 * g.size_spec() * g.size_spec() - 4 * g.size_spec(),
        forall|r: int, c: int|
            0 <= r < g.size_spec() && 0 <= c < g.size_spec() ==> g.rendered()[cell_char_pos(
                g.size_spec(),
                r,
                c,
            )] == #[trigger] g.cell_char(r, c),
{
    let s = g.size_spec();
    lemma_render_shape(g, s);
    assert forall|r: int, c: int|
        0 <= r < s && 0 <= c < s implies g.rendered()[cell_char_pos(s, r, c)]
        == #[trigger] g.cell_char(r, c) by {
        let pos = cell_char_pos(s, r, c);
        assert(0 <= pos < g.render_upto(s).len()) by (nonlinear_arith)
            requires
                0 <= r < s,
                0 <= c < s,
                2 <= s,
                pos == 8 * s * r + 4 * c + 1,
                g.render_upto(s).len() == 8 * s * s - 4 * s - 1,
        ;
        assert(g.rendered()[pos] == g.render_upto(s)[pos]);
    }
}

/// Law: placing a mark and then rendering shows the mark's glyph at the
/// placed cell's position, while every cell still unmarked shows its label.
/// The two boards are related as `update_board` leaves them.
pub proof fn lemma_place_then_render(before: TicTacToe, after: TicTacToe, ch: char, m: Mark)
    requires
        before.wf(),
        after.wf(),
        after.size_spec() == before.size_spec(),
        before.label_maps(ch),
        m != Mark::Unmarked,
        after.cell(before.label_row(ch), before.label_col(ch)) == m,
        forall|r: int, c: int|
            0 <= r < before.size_spec() && 0 <= c < before.size_spec() && !(r == before.label_row(
                ch,
            ) && c == before.label_col(ch)) ==> after.cell(r, c) == before.cell(r, c),
    ensures
        after.rendered()[cell_char_pos(
            after.size_spec(),
            before.label_row(ch),
            before.label_col(ch),
        )] == (if m == Mark::X {
            'X'
        } else {
            'O'
        }),
        forall|r: int, c: int|
            0 <= r < after.size_spec() && 0 <= c < after.size_spec() && #[trigger] after.cell(r, c)
                == Mark::Unmarked ==> after.rendered()[cell_char_pos(after.size_spec(), r, c)]
                == spec_label(r * after.size_spec() + c),
{
    let s = after.size_spec();
    lemma_label_map_bijective(before);
    lemma_render_shows_cells(after);
    assert(after.cell_char(before.label_row(ch), before.label_col(ch)) == (if m == Mark::X {
        'X'
    } else {
        'O'
    }));
    assert forall|r: int, c: int|
        0 <= r < s && 0 <= c < s && #[trigger] after.cell(r, c)
            == Mark::Unmarked implies after.rendered()[cell_char_pos(s, r, c)] == spec_label(
        r * s + c,
    ) by {
        assert(after.cell_char(r, c) == spec_label(r * s + c));
    }
}

/// Law: a move can complete a line only for the mark just placed. If a mark
/// is placed on one cell of a board on which the other mark had not won,
/// the other mark still has not won: checking the mover alone is complete.
/// The two boards are related as `update_board` leaves them.
pub proof fn lemma_win_only_for_mover(
    before: TicTacToe,
    after: TicTacToe,
    ch: char,
    m: Mark,
    other: Mark,
)
    requires
        before.wf(),
        after.wf(),
        after.size_spec() == before.size_spec(),
        before.label_maps(ch),
        after.cell(before.label_row(ch), before.label_col(ch)) == m,
        forall|r: int, c: int|
            0 <= r < before.size_spec() && 0 <= c < before.size_spec() && !(r == before.label_row(
                ch,
            ) && c == before.label_col(ch)) ==> after.cell(r, c) == before.cell(r, c),
        other != m,
        !before.has_won(other),
    ensures
        !after.has_won(other),
{
    let s = before.size_spec();
    lemma_label_map_bijective(before);
    assert forall|r: int| 0 <= r < s && after.row_won(r, other) implies before.row_won(
        r,
        other,
    ) by {
        assert forall|c: int| 0 <= c < s implies before.cell(r, c) == other by {
            assert(after.cell(r, c) == other);
        }
    }
    assert forall|c: int| 0 <= c < s && after.col_won(c, other) implies before.col_won(
        c,
        other,
    ) by {
        assert forall|r: int| 0 <= r < s implies before.cell(r, c) == other by {
            assert(after.cell(r, c) == other);
        }
    }
    if after.has_won(other) {
        if exists|r: int| 0 <= r < s && after.row_won(r, other) {
            let r = choose|r: int| 0 <= r < s && after.row_won(r, other);
            assert(before.row_won(r, other));
        } else if exists|c: int| 0 <= c < s && after.col_won(c, other) {
            let c = choose|c: int| 0 <= c < s && after.col_won(c, other);
            assert(before.col_won(c, other));
        } else if after.diag_won(other) {
            assert forall|i: int| 0 <= i < s implies before.cell(i, i) == other by {
                assert(after.cell(i, i) == other);
            }
        } else {
            assert(after.antidiag_won(other));
            assert forall|r: int, c: int|
                0 <= r < s && r + c == s - 1 implies #[trigger] before.cell(r, c) == other by {
                assert(after.cell(r, c) == other);
            }
        }
        assert(false);
    }
}

/// Relies on `String`'s `FromIterator<char>` impl: collecting characters
/// yields the string made of exactly those characters, in order.
#[verifier::external_body]
fn chars_to_string(chars: &Vec<char>) -> (s: String)
    ensures
        s@ == chars@,
{
    chars.iter().collect()
}

/// A cell's row and column keep its row-major index within the grid.
proof fn lemma_cell_index_bounded(r: int, c: int, size: int)
    requires
        0 <= r < size,
        0 <= c < size,
        size <= 7,
    ensures
        0 <= r * size + c < size * size <= 49,
{
    assert(0 <= r * size + c < size * size <= 49) by (nonlinear_arith)
        requires
            0 <= r < size,
            0 <= c < size,
            size <= 7,
    ;
}

/// The square of a side length within bounds stays small.
pub proof fn lemma_square_bounded(size: int)
    requires
        0 <= size <= 7,
    ensures
        0 <= size * size <= 49,
{
    assert(0 <= size * size <= 49) by (nonlinear_arith)
        requires
            0 <= size <= 7,
    ;
}

/// A row-major index below `size * size` lands on a row and column below
/// `size`, and determines them uniquely.
pub proof fn lemma_index_to_coords(i: int, size: int)
    requires
        0 <= i,
        0 < size,
        i < size * size,
    ensures
        0 <= i / size < size,
        0 <= i % size < size,
        i == (i / size) * size + i % size,
{
    assert(0 <= i / size < size && 0 <= i % size < size && i == (i / size) * size + i % size)
        by (nonlinear_arith)
        requires
            0 <= i,
            0 < size,
            i < size * size,
    ;
}

} // verus!
