//! The board: an append-only log of moves over a rectangle of cells.
//!
//! A cell belongs to whoever wrote it last. Everything the board answers is
//! stated over the log, a `Seq<PlayerMove>`, and the board's extent.

use vstd::prelude::*;
use vstd::arithmetic::div_mod::lemma_fundamental_div_mod_converse;
use crate::common::Size;
use crate::player_move::{PlayerMove, BLOCKED};

verus! {

/// The owner of `pos` after the moves of `log`: that of the latest entry
/// written to `pos`, if there is one.
pub open spec fn owner_at(log: Seq<PlayerMove>, pos: Size) -> Option<i32>
    decreases log.len(),
{
    if log.len() == 0 {
        None
    } else if log.last().position == pos {
        Some(log.last().player)
    } else {
        owner_at(log.drop_last(), pos)
    }
}

/// `i` is the latest entry of `log` that was written to `pos`.
pub open spec fn is_latest_entry(log: Seq<PlayerMove>, pos: Size, i: int) -> bool {
    &&& 0 <= i < log.len()
    &&& log[i].position == pos
    &&& forall|j: int| i < j < log.len() ==> log[j].position != pos
}

/// No entry of `log` was written to `pos`.
pub open spec fn never_written(log: Seq<PlayerMove>, pos: Size) -> bool {
    forall|j: int| 0 <= j < log.len() ==> log[j].position != pos
}

pub open spec fn in_bounds(size: Size, pos: Size) -> bool {
    pos.x < size.x && pos.y < size.y
}

/// A new move may go to `pos`: the cell lies on the board and nobody owns it.
pub open spec fn is_legal(log: Seq<PlayerMove>, size: Size, pos: Size) -> bool {
    owner_at(log, pos) is None && in_bounds(size, pos)
}

/// The owner of a cell is read off its latest entry.
pub proof fn lemma_owner_at_latest(log: Seq<PlayerMove>, pos: Size, i: int)
    requires
        is_latest_entry(log, pos, i),
    ensures
        owner_at(log, pos) == Some(log[i].player),
    decreases log.len(),
{
    if log.last().position != pos {
        lemma_owner_at_latest(log.drop_last(), pos, i);
    }
}

/// A cell that no entry names has no owner, and the other way round.
pub proof fn lemma_owner_at_none(log: Seq<PlayerMove>, pos: Size)
    ensures
        owner_at(log, pos) is None <==> never_written(log, pos),
    decreases log.len(),
{
    if log.len() > 0 {
        lemma_owner_at_none(log.drop_last(), pos);
        if log.last().position != pos {
            if never_written(log.drop_last(), pos) {
                assert forall|j: int| 0 <= j < log.len() implies log[j].position != pos by {
                    if j < log.len() - 1 {
                        assert(log.drop_last()[j].position != pos);
                    }
                }
            } else {
                let j = choose|j: int| 0 <= j < log.drop_last().len() && log.drop_last()[j].position == pos;
                assert(log[j].position == pos);
            }
        } else {
            assert(log[log.len() - 1].position == pos);
        }
    }
}

/// A direction of travel on the board: one step changes each coordinate by at
/// most one, and at least one of them.
pub open spec fn is_step(dx: int, dy: int) -> bool {
    -1 <= dx <= 1 && -1 <= dy <= 1 && (dx != 0 || dy != 0)
}

/// The cell `(x, y)` lies on the board and belongs to `owner`.
pub open spec fn owned_cell(log: Seq<PlayerMove>, size: Size, x: int, y: int, owner: i32) -> bool {
    &&& 0 <= x < size.x
    &&& 0 <= y < size.y
    &&& owner_at(log, Size { x: x as u32, y: y as u32 }) == Some(owner)
}

/// How many steps along `(dx, dy)` a walk from `(x, y)` can still make before
/// it leaves the board.
pub open spec fn steps_to_edge(size: Size, x: int, y: int, dx: int, dy: int) -> int {
    if dx > 0 {
        size.x - x
    } else if dx < 0 {
        x + 1
    } else if dy > 0 {
        size.y - y
    } else {
        y + 1
    }
}

/// The cells that a walk along `(dx, dy)` visits, `(x, y)` first: it goes on
/// while the cell it stands on lies on the board and belongs to `owner`.
pub open spec fn ray(
    log: Seq<PlayerMove>,
    size: Size,
    x: int,
    y: int,
    dx: int,
    dy: int,
    owner: i32,
) -> Seq<Size>
    decreases steps_to_edge(size, x, y, dx, dy),
{
    if is_step(dx, dy) && owned_cell(log, size, x, y, owner) {
        seq![Size { x: x as u32, y: y as u32 }] + ray(log, size, x + dx, y + dy, dx, dy, owner)
    } else {
        Seq::empty()
    }
}

/// The run of `owner`'s cells through `pos` on the axis `(dx, dy)`: `pos`
/// itself, then the cells against the axis outwards, then those along it.
pub open spec fn line_through(
    log: Seq<PlayerMove>,
    size: Size,
    pos: Size,
    dx: int,
    dy: int,
    owner: i32,
) -> Seq<Size> {
    seq![pos] + ray(log, size, pos.x - dx, pos.y - dy, -dx, -dy, owner) + ray(
        log,
        size,
        pos.x + dx,
        pos.y + dy,
        dx,
        dy,
        owner,
    )
}

/// One blocking marker for each cell of `cells`, in their order.
pub open spec fn markers(cells: Seq<Size>) -> Seq<PlayerMove> {
    cells.map_values(|c: Size| PlayerMove { player: BLOCKED, position: c })
}

/// The markers for the run through `pos` on the axis `(dx, dy)`, if the run
/// has at least `win_length` cells.
pub open spec fn axis_line(
    log: Seq<PlayerMove>,
    size: Size,
    pos: Size,
    dx: int,
    dy: int,
    owner: i32,
    win_length: u32,
) -> Option<Seq<PlayerMove>> {
    let cells = line_through(log, size, pos, dx, dy, owner);
    if cells.len() >= win_length {
        Some(markers(cells))
    } else {
        None
    }
}

/// The line that the move at `pos` completed, as blocking markers: the run
/// through `pos` on the first of the axes horizontal, vertical, diagonal
/// `\` and diagonal `/` whose run has at least `win_length` cells. Empty
/// where nobody owns `pos` or no axis has such a run.
pub open spec fn detect_line(log: Seq<PlayerMove>, size: Size, pos: Size, win_length: u32) -> Seq<
    PlayerMove,
> {
    match owner_at(log, pos) {
        None => Seq::empty(),
        Some(owner) => {
            if let Some(line) = axis_line(log, size, pos, 1, 0, owner, win_length) {
                line
            } else if let Some(line) = axis_line(log, size, pos, 0, 1, owner, win_length) {
                line
            } else if let Some(line) = axis_line(log, size, pos, 1, 1, owner, win_length) {
                line
            } else if let Some(line) = axis_line(log, size, pos, 1, -1, owner, win_length) {
                line
            } else {
                Seq::empty()
            }
        },
    }
}

/// A ray never has more cells than fit in a `u32`.
pub proof fn lemma_ray_len(
    log: Seq<PlayerMove>,
    size: Size,
    x: int,
    y: int,
    dx: int,
    dy: int,
    owner: i32,
)
    ensures
        ray(log, size, x, y, dx, dy, owner).len() <= u32::MAX,
        ray(log, size, x, y, dx, dy, owner).len() > 0 ==> ray(log, size, x, y, dx, dy, owner).len()
            <= steps_to_edge(size, x, y, dx, dy),
    decreases steps_to_edge(size, x, y, dx, dy),
{
    if is_step(dx, dy) && owned_cell(log, size, x, y, owner) {
        lemma_ray_len(log, size, x + dx, y + dy, dx, dy, owner);
    }
}

/// The `k`-th cell of a board when its cells are counted column by column:
/// `x` is the column, and within a column `y` grows.
pub open spec fn cell_of_index(size: Size, k: int) -> Size {
    Size { x: (k / (size.y as int)) as u32, y: (k % (size.y as int)) as u32 }
}

/// Every cell of a board of extent `size`, column by column.
pub open spec fn all_cells(size: Size) -> Seq<Size> {
    Seq::new((size.x * size.y) as nat, |k: int| cell_of_index(size, k))
}

/// The cells of the board that nobody owns, in the order of `all_cells`.
pub open spec fn empty_cells(log: Seq<PlayerMove>, size: Size) -> Seq<Size> {
    all_cells(size).filter(|c: Size| owner_at(log, c) is None)
}

/// One move of `id` to each cell that nobody owns, in the order of
/// `all_cells`.
pub open spec fn possible_moves(log: Seq<PlayerMove>, size: Size, id: i32) -> Seq<PlayerMove> {
    empty_cells(log, size).map_values(|c: Size| PlayerMove { player: id, position: c })
}

/// The cell in column `x` and row `y` is the cell number `x * size.y + y`.
pub proof fn lemma_cell_index(size: Size, x: int, y: int)
    requires
        0 <= x < size.x,
        0 <= y < size.y,
    ensures
        0 <= x * size.y + y < size.x * size.y,
        cell_of_index(size, x * size.y + y) == (Size { x: x as u32, y: y as u32 }),
        all_cells(size)[x * size.y + y] == (Size { x: x as u32, y: y as u32 }),
{
    let h = size.y as int;
    assert(0 <= x * h && x * h + h <= size.x * h) by (nonlinear_arith)
        requires
            0 <= x < size.x,
            0 < h,
    ;
    lemma_fundamental_div_mod_converse(x * h + y, h, x, y);
}

/// What `empty_cells` holds: exactly the cells where a move is legal, each
/// of them once.
pub proof fn lemma_empty_cells(log: Seq<PlayerMove>, size: Size)
    ensures
        forall|i: int|
            0 <= i < empty_cells(log, size).len() ==> is_legal(
                log,
                size,
                #[trigger] empty_cells(log, size)[i],
            ),
        forall|pos: Size| is_legal(log, size, pos) ==> empty_cells(log, size).contains(pos),
        empty_cells(log, size).no_duplicates(),
{
    let all = all_cells(size);
    let free = |c: Size| owner_at(log, c) is None;
    let cells = empty_cells(log, size);
    let h = size.y as int;
    assert forall|k: int| 0 <= k < all.len() implies in_bounds(size, #[trigger] all[k]) by {
        assert(0 < h) by (nonlinear_arith)
            requires
                0 <= k < size.x * h,
                0 <= h,
        ;
        assert(0 <= k / h < size.x && 0 <= k % h < h) by (nonlinear_arith)
            requires
                0 <= k < size.x * h,
                0 < h,
        ;
    }
    assert forall|i: int| 0 <= i < cells.len() implies is_legal(log, size, #[trigger] cells[i]) by {
        all.lemma_filter_pred(free, i);
        assert(cells.contains(cells[i]));
        all.lemma_filter_contains_rev(free, cells[i]);
    }
    assert forall|pos: Size| is_legal(log, size, pos) implies cells.contains(pos) by {
        lemma_cell_index(size, pos.x as int, pos.y as int);
        all.lemma_filter_contains(free, pos.x * h + pos.y);
    }
    assert forall|a: int, b: int| 0 <= a < all.len() && 0 <= b < all.len() && a != b implies all[a]
        != all[b] by {
        assert(0 < h) by (nonlinear_arith)
            requires
                0 <= a < size.x * h,
                0 <= h,
        ;
        assert(a == h * (a / h) + a % h && b == h * (b / h) + b % h) by (nonlinear_arith)
            requires
                0 < h,
        ;
        assert(0 <= a / h < size.x && 0 <= a % h < h && 0 <= b / h < size.x && 0 <= b % h < h)
            by (nonlinear_arith)
            requires
                0 <= a < size.x * h,
                0 <= b < size.x * h,
                0 < h,
        ;
    }
    lemma_filter_keeps_distinct(all, free);
}

/// Filtering a sequence without duplicates leaves one without duplicates.
proof fn lemma_filter_keeps_distinct(s: Seq<Size>, pred: spec_fn(Size) -> bool)
    requires
        s.no_duplicates(),
    ensures
        s.filter(pred).no_duplicates(),
    decreases s.len(),
{
    reveal(Seq::filter);
    if s.len() > 0 {
        let rest = s.drop_last();
        lemma_filter_keeps_distinct(rest, pred);
        if pred(s.last()) {
            let kept = rest.filter(pred);
            assert forall|i: int| 0 <= i < kept.len() implies kept[i] != s.last() by {
                assert(kept.contains(kept[i]));
                rest.lemma_filter_contains_rev(pred, kept[i]);
                let j = choose|j: int| 0 <= j < rest.len() && rest[j] == kept[i];
                assert(s[j] == kept[i]);
            }
        }
    }
}

/// The board of one match.
pub struct Grid {
    size: Size,
    moves: Vec<PlayerMove>,
}

impl View for Grid {
    type V = Seq<PlayerMove>;

    /// The log, oldest entry first.
    closed spec fn view(&self) -> Seq<PlayerMove> {
        self.moves@
    }
}

impl Clone for Grid {
    fn clone(&self) -> (copy: Self)
        ensures
            copy.extent() == self.extent(),
            copy@ == self@,
    {
        let mut moves: Vec<PlayerMove> = Vec::new();
        let mut i: usize = 0;
        while i < self.moves.len()
            invariant
                i <= self.moves.len(),
                moves@ == self.moves@.take(i as int),
            decreases self.moves.len() - i,
        {
            moves.push(self.moves[i]);
            i += 1;
            assert(moves@ =~= self.moves@.take(i as int));
        }
        assert(self.moves@.take(i as int) =~= self.moves@);
        Self { size: self.size, moves }
    }
}

impl Grid {
    /// The board's width (`x`) and height (`y`), fixed when it is made.
    pub closed spec fn extent(&self) -> Size {
        self.size
    }

    /// An empty board of the given extent.
    pub fn new(size: Size) -> (grid: Self)
        ensures
            grid.extent() == size,
            grid@ == Seq::<PlayerMove>::empty(),
    {
        Self { size, moves: Vec::new() }
    }

    /// The board's width (`x`) and height (`y`).
    pub fn size(&self) -> (size: Size)
        ensures
            size == self.extent(),
    {
        self.size
    }

    /// The index in the log of the latest entry written to `pos`.
    pub fn get_index(&self, pos: &Size) -> (index: Option<usize>)
        ensures
            match index {
                Some(i) => is_latest_entry(self@, *pos, i as int),
                None => never_written(self@, *pos),
            },
    {
        let mut i: usize = self.moves.len();
        while i > 0
            invariant
                i <= self.moves.len(),
                forall|j: int| i <= j < self.moves@.len() ==> self.moves@[j].position != *pos,
            decreases i,
        {
            i -= 1;
            if self.moves[i].position == *pos {
                return Some(i);
            }
        }
        None
    }

    /// The owner of `pos`, or `None` where nobody has written it.
    pub fn get_pos(&self, pos: &Size) -> (owner: Option<i32>)
        ensures
            owner == owner_at(self@, *pos),
    {
        match self.get_index(pos) {
            Some(i) => {
                proof {
                    lemma_owner_at_latest(self@, *pos, i as int);
                }
                Some(self.moves[i].player)
            },
            None => {
                proof {
                    lemma_owner_at_none(self@, *pos);
                }
                None
            },
        }
    }

    /// Appends the moves of `moves` to the log, in their order.
    pub fn add_range(&mut self, moves: &Vec<PlayerMove>)
        ensures
            final(self).extent() == old(self).extent(),
            final(self)@ == old(self)@ + moves@,
    {
        let mut i: usize = 0;
        while i < moves.len()
            invariant
                i <= moves.len(),
                self.size == old(self).size,
                self.moves@ == old(self).moves@ + moves@.take(i as int),
            decreases moves.len() - i,
        {
            self.moves.push(moves[i]);
            i += 1;
            assert(self.moves@ =~= old(self).moves@ + moves@.take(i as int));
        }
        assert(moves@.take(i as int) =~= moves@);
    }

    /// Appends `m` to the log, whether or not the move is legal.
    pub fn add(&mut self, m: PlayerMove)
        ensures
            final(self).extent() == old(self).extent(),
            final(self)@ == old(self)@.push(m),
    {
        self.moves.push(m);
    }

    /// Whether nobody owns `pos`.
    pub fn is_empty(&self, pos: &Size) -> (empty: bool)
        ensures
            empty == (owner_at(self@, *pos) is None),
    {
        self.get_pos(pos).is_none()
    }

    /// Whether a new move may go to `pos`.
    pub fn is_valid_move(&self, pos: &Size) -> (valid: bool)
        ensures
            valid == is_legal(self@, self.extent(), *pos),
    {
        self.is_empty(pos) && pos.x < self.size.x && pos.y < self.size.y
    }

    /// Walks from the neighbour of `pos` along `(dx, dy)` over the cells of
    /// `owner` and returns them in the order of the walk.
    fn walk(&self, pos: &Size, dx: i64, dy: i64, owner: i32) -> (cells: Vec<Size>)
        requires
            is_step(dx as int, dy as int),
        ensures
            cells@ == ray(
                self@,
                self.extent(),
                pos.x + dx,
                pos.y + dy,
                dx as int,
                dy as int,
                owner,
            ),
            cells@.len() <= u32::MAX,
    {
        let mut cells: Vec<Size> = Vec::new();
        let mut x: i64 = pos.x as i64 + dx;
        let mut y: i64 = pos.y as i64 + dy;
        proof {
            lemma_ray_len(self@, self.extent(), pos.x + dx, pos.y + dy, dx as int, dy as int, owner);
        }
        loop
            invariant
                is_step(dx as int, dy as int),
                -1 <= x <= u32::MAX + 1,
                -1 <= y <= u32::MAX + 1,
                cells@ + ray(self@, self.extent(), x as int, y as int, dx as int, dy as int, owner)
                    == ray(
                    self@,
                    self.extent(),
                    pos.x + dx,
                    pos.y + dy,
                    dx as int,
                    dy as int,
                    owner,
                ),
            ensures
                cells@ == ray(
                    self@,
                    self.extent(),
                    pos.x + dx,
                    pos.y + dy,
                    dx as int,
                    dy as int,
                    owner,
                ),
            decreases steps_to_edge(self.extent(), x as int, y as int, dx as int, dy as int),
        {
            let ghost rest = ray(
                self@,
                self.extent(),
                x as int,
                y as int,
                dx as int,
                dy as int,
                owner,
            );
            let ghost before = cells@;
            if x < 0 || y < 0 || x >= self.size.x as i64 || y >= self.size.y as i64 {
                assert(cells@ + rest =~= cells@);
                break ;
            }
            let cell = Size::new(x as u32, y as u32);
            let here = match self.get_pos(&cell) {
                Some(o) => o == owner,
                None => false,
            };
            if !here {
                assert(cells@ + rest =~= cells@);
                break ;
            }
            cells.push(cell);
            x += dx;
            y += dy;
            assert(cells@ + ray(
                self@,
                self.extent(),
                x as int,
                y as int,
                dx as int,
                dy as int,
                owner,
            ) =~= before + rest) by {
                assert(rest =~= seq![cell] + ray(
                    self@,
                    self.extent(),
                    x as int,
                    y as int,
                    dx as int,
                    dy as int,
                    owner,
                ));
            }
        }
        cells
    }

    /// The markers for the run of `owner` through `pos` on the axis
    /// `(dx, dy)`, if the run has at least `win_length` cells.
    fn line_on_axis(&self, pos: &Size, dx: i64, dy: i64, owner: i32, win_length: u32) -> (line:
        Option<Vec<PlayerMove>>)
        requires
            is_step(dx as int, dy as int),
        ensures
            match line {
                Some(moves) => axis_line(
                    self@,
                    self.extent(),
                    *pos,
                    dx as int,
                    dy as int,
                    owner,
                    win_length,
                ) == Some(moves@),
                None => axis_line(
                    self@,
                    self.extent(),
                    *pos,
                    dx as int,
                    dy as int,
                    owner,
                    win_length,
                ) is None,
            },
    {
        let back = self.walk(pos, -dx, -dy, owner);
        let forth = self.walk(pos, dx, dy, owner);
        let ghost cells = line_through(self@, self.extent(), *pos, dx as int, dy as int, owner);
        let total: u64 = 1 + back.len() as u64 + forth.len() as u64;
        if total < win_length as u64 {
            return None;
        }
        let mut moves: Vec<PlayerMove> = Vec::new();
        moves.push(PlayerMove::blocked(*pos));
        let mut i: usize = 0;
        while i < back.len()
            invariant
                i <= back.len(),
                moves@ == markers(seq![*pos] + back@.take(i as int)),
            decreases back.len() - i,
        {
            moves.push(PlayerMove::blocked(back[i]));
            i += 1;
            assert(moves@ =~= markers(seq![*pos] + back@.take(i as int)));
        }
        assert(back@.take(i as int) =~= back@);
        let mut j: usize = 0;
        while j < forth.len()
            invariant
                j <= forth.len(),
                moves@ == markers(seq![*pos] + back@ + forth@.take(j as int)),
            decreases forth.len() - j,
        {
            moves.push(PlayerMove::blocked(forth[j]));
            j += 1;
            assert(moves@ =~= markers(seq![*pos] + back@ + forth@.take(j as int)));
        }
        assert(forth@.take(j as int) =~= forth@);
        Some(moves)
    }

    /// Looks for the line that the move at `pos` completed and returns one
    /// blocking marker for each of its cells: `pos` first, then the cells
    /// towards the axis's start, then those towards its end. Only the first
    /// axis that has a long enough run is reported.
    pub fn check_win(&self, pos: &Size, win_length: u32) -> (moves: Vec<PlayerMove>)
        ensures
            moves@ == detect_line(self@, self.extent(), *pos, win_length),
    {
        let owner = match self.get_pos(pos) {
            Some(o) => o,
            None => {
                return Vec::new();
            },
        };
        if let Some(line) = self.line_on_axis(pos, 1, 0, owner, win_length) {
            return line;
        }
        if let Some(line) = self.line_on_axis(pos, 0, 1, owner, win_length) {
            return line;
        }
        if let Some(line) = self.line_on_axis(pos, 1, 1, owner, win_length) {
            return line;
        }
        if let Some(line) = self.line_on_axis(pos, 1, -1, owner, win_length) {
            return line;
        }
        Vec::new()
    }

    /// The cells that nobody owns, column by column.
    pub fn get_possible_moves_size(&self) -> (cells: Vec<Size>)
        ensures
            cells@ == empty_cells(self@, self.extent()),
    {
        let ghost all = all_cells(self.extent());
        let ghost free = |c: Size| owner_at(self@, c) is None;
        let width = self.size.x;
        let height = self.size.y;
        let mut cells: Vec<Size> = Vec::new();
        let mut i: u32 = 0;
        proof {
            reveal(Seq::filter);
            assert(all.take(0) =~= Seq::<Size>::empty());
        }
        while i < width
            invariant
                i <= width,
                width == self.extent().x,
                height == self.extent().y,
                all == all_cells(self.extent()),
                free == (|c: Size| owner_at(self@, c) is None),
                i * height <= all.len(),
                cells@ == all.take(i * height).filter(free),
            decreases width - i,
        {
            let mut j: u32 = 0;
            while j < height
                invariant
                    i < width,
                    j <= height,
                    width == self.extent().x,
                    height == self.extent().y,
                    all == all_cells(self.extent()),
                    free == (|c: Size| owner_at(self@, c) is None),
                    i * height + j <= all.len(),
                    cells@ == all.take(i * height + j).filter(free),
                decreases height - j,
            {
                let pos = Size::new(i, j);
                proof {
                    let k = i * height + j;
                    lemma_cell_index(self.extent(), i as int, j as int);
                    assert(all.take(k + 1) =~= all.take(k).push(pos));
                    all.take(k).lemma_filter_push(pos, free);
                }
                if self.is_empty(&pos) {
                    cells.push(pos);
                }
                j += 1;
            }
            assert(i * height + height == (i + 1) * height) by (nonlinear_arith);
            i += 1;
        }
        proof {
            assert(all.take(all.len() as int) =~= all);
        }
        cells
    }

    /// One move of `id` for each cell that nobody owns, column by column:
    /// the moves that `id` may choose from.
    pub fn get_possible_moves(&self, id: i32) -> (moves: Vec<PlayerMove>)
        ensures
            moves@ == possible_moves(self@, self.extent(), id),
    {
        let cells = self.get_possible_moves_size();
        let mut moves: Vec<PlayerMove> = Vec::new();
        let mut i: usize = 0;
        while i < cells.len()
            invariant
                i <= cells.len(),
                moves@ == cells@.take(i as int).map_values(
                    |c: Size| PlayerMove { player: id, position: c },
                ),
            decreases cells.len() - i,
        {
            moves.push(PlayerMove::new(id, cells[i]));
            i += 1;
            assert(moves@ =~= cells@.take(i as int).map_values(
                |c: Size| PlayerMove { player: id, position: c },
            ));
        }
        assert(cells@.take(i as int) =~= cells@);
        moves
    }

    /// The log, oldest entry first.
    pub fn moves(&self) -> (moves: &Vec<PlayerMove>)
        ensures
            moves@ == self@,
    {
        &self.moves
    }

    /// The number of entries in the log.
    pub fn move_count(&self) -> (n: usize)
        ensures
            n == self@.len(),
    {
        self.moves.len()
    }
}

} // verus!

verus! {

/// Recording a move gives its cell to the mover and changes no other cell.
pub proof fn lemma_owner_after_push(log: Seq<PlayerMove>, m: PlayerMove, pos: Size)
    ensures
        owner_at(log.push(m), pos) == if pos == m.position {
            Some(m.player)
        } else {
            owner_at(log, pos)
        },
{
    assert(log.push(m).drop_last() =~= log);
}

/// Once a move to a cell is recorded, no move to that cell is legal.
pub proof fn lemma_recorded_cell_not_legal(log: Seq<PlayerMove>, size: Size, m: PlayerMove)
    ensures
        owner_at(log.push(m), m.position) == Some(m.player),
        !is_legal(log.push(m), size, m.position),
{
    lemma_owner_after_push(log, m, m.position);
}

/// Every entry of `later` is a blocking marker, or was a legal move when it
/// was appended to `log` after the entries before it.
pub open spec fn only_legal_or_markers(log: Seq<PlayerMove>, size: Size, later: Seq<PlayerMove>) -> bool {
    forall|i: int|
        0 <= i < later.len() ==> (#[trigger] later[i]).player == BLOCKED || is_legal(
            log + later.take(i),
            size,
            later[i].position,
        )
}

/// A blocked cell stays blocked, whatever legal moves and blocking markers
/// are recorded after it.
pub proof fn lemma_blocked_is_terminal(
    log: Seq<PlayerMove>,
    size: Size,
    later: Seq<PlayerMove>,
    pos: Size,
)
    requires
        owner_at(log, pos) == Some(BLOCKED),
        only_legal_or_markers(log, size, later),
    ensures
        owner_at(log + later, pos) == Some(BLOCKED),
    decreases later.len(),
{
    if later.len() == 0 {
        assert(log + later =~= log);
    } else {
        let before = later.drop_last();
        let m = later.last();
        assert forall|i: int| 0 <= i < before.len() implies (#[trigger] before[i]).player == BLOCKED
            || is_legal(log + before.take(i), size, before[i].position) by {
            assert(before[i] == later[i]);
            assert(before.take(i) =~= later.take(i));
        }
        lemma_blocked_is_terminal(log, size, before, pos);
        assert(log + later =~= (log + before).push(m));
        assert(later.take(later.len() - 1) =~= before);
        lemma_owner_after_push(log + before, m, pos);
    }
}

/// Line detection reports blocking markers and nothing else.
pub proof fn lemma_detect_line_blocks(log: Seq<PlayerMove>, size: Size, pos: Size, win_length: u32)
    ensures
        forall|i: int|
            0 <= i < detect_line(log, size, pos, win_length).len() ==> (#[trigger] detect_line(
                log,
                size,
                pos,
                win_length,
            )[i]).player == BLOCKED,
{
}

/// Where a cell has an owner, some entry written to it names that owner.
pub proof fn lemma_owner_at_some(log: Seq<PlayerMove>, pos: Size)
    requires
        owner_at(log, pos) is Some,
    ensures
        exists|i: int|
            is_latest_entry(log, pos, i) && owner_at(log, pos) == Some((#[trigger] log[i]).player),
    decreases log.len(),
{
    if log.last().position == pos {
        assert(is_latest_entry(log, pos, log.len() - 1));
    } else {
        lemma_owner_at_some(log.drop_last(), pos);
        let i = choose|i: int|
            is_latest_entry(log.drop_last(), pos, i) && owner_at(log.drop_last(), pos) == Some(
                (#[trigger] log.drop_last()[i]).player,
            );
        assert(log[i] == log.drop_last()[i]);
        assert forall|j: int| i < j < log.len() implies log[j].position != pos by {
            if j < log.len() - 1 {
                assert(log.drop_last()[j].position != pos);
            }
        }
        assert(is_latest_entry(log, pos, i));
    }
}

/// The coordinate reached from `c` after `k` steps of `d`, for a `d` of
/// -1, 0 or 1.
pub open spec fn along(c: int, d: int, k: int) -> int {
    if d > 0 {
        c + k
    } else if d < 0 {
        c - k
    } else {
        c
    }
}

/// The `k`-th cell of the run that starts at `(sx, sy)` and goes along
/// `(dx, dy)`.
pub open spec fn run_cell(sx: int, sy: int, dx: int, dy: int, k: int) -> Size {
    Size { x: along(sx, dx, k) as u32, y: along(sy, dy, k) as u32 }
}

/// One of the four axes on which lines are looked for, named by the step
/// towards its end: horizontal, vertical, diagonal `\` and diagonal `/`.
pub open spec fn is_axis(dx: int, dy: int) -> bool {
    (dx == 1 && dy == 0) || (dx == 0 && dy == 1) || (dx == 1 && dy == 1) || (dx == 1 && dy == -1)
}

/// `pos` is one of the `n` cells of the run from `(sx, sy)` along `(dx, dy)`.
pub open spec fn on_run(pos: Size, sx: int, sy: int, dx: int, dy: int, n: int) -> bool {
    exists|k: int| 0 <= k < n && pos == #[trigger] run_cell(sx, sy, dx, dy, k)
}

/// The board holds one run and nothing else: `n` cells in a row from
/// `(sx, sy)` along the axis `(dx, dy)`, all on the board, each written by
/// `owner`, in whatever order, and no entry for any other cell or owner.
pub open spec fn holds_single_run(
    log: Seq<PlayerMove>,
    size: Size,
    sx: int,
    sy: int,
    dx: int,
    dy: int,
    n: int,
    owner: i32,
) -> bool {
    &&& is_axis(dx, dy)
    &&& 1 <= n <= u32::MAX
    &&& forall|k: int|
        0 <= k < n ==> 0 <= #[trigger] along(sx, dx, k) < size.x && 0 <= along(sy, dy, k) < size.y
    &&& forall|i: int|
        0 <= i < log.len() ==> (#[trigger] log[i]).player == owner && on_run(
            log[i].position,
            sx,
            sy,
            dx,
            dy,
            n,
        )
    &&& forall|k: int| 0 <= k < n ==> !never_written(log, #[trigger] run_cell(sx, sy, dx, dy, k))
}

proof fn lemma_run_cell_owned(
    log: Seq<PlayerMove>,
    size: Size,
    sx: int,
    sy: int,
    dx: int,
    dy: int,
    n: int,
    owner: i32,
    k: int,
)
    requires
        holds_single_run(log, size, sx, sy, dx, dy, n, owner),
        0 <= k < n,
    ensures
        owned_cell(log, size, along(sx, dx, k), along(sy, dy, k), owner),
{
    let pos = run_cell(sx, sy, dx, dy, k);
    assert(0 <= along(sx, dx, k) < size.x && 0 <= along(sy, dy, k) < size.y);
    assert(!never_written(log, pos));
    lemma_owner_at_none(log, pos);
    lemma_owner_at_some(log, pos);
}

proof fn lemma_off_run_not_owned(
    log: Seq<PlayerMove>,
    size: Size,
    sx: int,
    sy: int,
    dx: int,
    dy: int,
    n: int,
    owner: i32,
    x: int,
    y: int,
)
    requires
        holds_single_run(log, size, sx, sy, dx, dy, n, owner),
        forall|k: int| 0 <= k < n ==> !(x == along(sx, dx, k) && y == along(sy, dy, k)),
    ensures
        !owned_cell(log, size, x, y, owner),
{
    if 0 <= x < size.x && 0 <= y < size.y {
        let pos = Size { x: x as u32, y: y as u32 };
        assert forall|i: int| 0 <= i < log.len() implies log[i].position != pos by {
            if log[i].position == pos {
                assert(on_run(log[i].position, sx, sy, dx, dy, n));
                let k = choose|k: int| 0 <= k < n && pos == #[trigger] run_cell(sx, sy, dx, dy, k);
                assert(0 <= along(sx, dx, k) < size.x && 0 <= along(sy, dy, k) < size.y);
            }
        }
        lemma_owner_at_none(log, pos);
    }
}

/// Walking towards the run's end from its `k`-th cell visits the cells
/// `k`, `k + 1`, and so on to the last.
proof fn lemma_ray_towards_end(
    log: Seq<PlayerMove>,
    size: Size,
    sx: int,
    sy: int,
    dx: int,
    dy: int,
    n: int,
    owner: i32,
    k: int,
)
    requires
        holds_single_run(log, size, sx, sy, dx, dy, n, owner),
        0 <= k <= n,
    ensures
        ray(log, size, along(sx, dx, k), along(sy, dy, k), dx, dy, owner) == Seq::new(
            (n - k) as nat,
            |i: int| run_cell(sx, sy, dx, dy, k + i),
        ),
    decreases n - k,
{
    let walked = ray(log, size, along(sx, dx, k), along(sy, dy, k), dx, dy, owner);
    let expected = Seq::new((n - k) as nat, |i: int| run_cell(sx, sy, dx, dy, k + i));
    if k == n {
        lemma_off_run_not_owned(
            log,
            size,
            sx,
            sy,
            dx,
            dy,
            n,
            owner,
            along(sx, dx, k),
            along(sy, dy, k),
        );
        assert(walked =~= expected);
    } else {
        lemma_run_cell_owned(log, size, sx, sy, dx, dy, n, owner, k);
        lemma_ray_towards_end(log, size, sx, sy, dx, dy, n, owner, k + 1);
        assert(along(sx, dx, k) + dx == along(sx, dx, k + 1));
        assert(along(sy, dy, k) + dy == along(sy, dy, k + 1));
        assert(walked =~= expected);
    }
}

/// Walking towards the run's start from its `k`-th cell visits the cells
/// `k`, `k - 1`, and so on to the first.
proof fn lemma_ray_towards_start(
    log: Seq<PlayerMove>,
    size: Size,
    sx: int,
    sy: int,
    dx: int,
    dy: int,
    n: int,
    owner: i32,
    k: int,
)
    requires
        holds_single_run(log, size, sx, sy, dx, dy, n, owner),
        -1 <= k < n,
    ensures
        ray(log, size, along(sx, dx, k), along(sy, dy, k), -dx, -dy, owner) == Seq::new(
            (k + 1) as nat,
            |i: int| run_cell(sx, sy, dx, dy, k - i),
        ),
    decreases k + 1,
{
    let walked = ray(log, size, along(sx, dx, k), along(sy, dy, k), -dx, -dy, owner);
    let expected = Seq::new((k + 1) as nat, |i: int| run_cell(sx, sy, dx, dy, k - i));
    if k == -1 {
        lemma_off_run_not_owned(
            log,
            size,
            sx,
            sy,
            dx,
            dy,
            n,
            owner,
            along(sx, dx, k),
            along(sy, dy, k),
        );
        assert(walked =~= expected);
    } else {
        lemma_run_cell_owned(log, size, sx, sy, dx, dy, n, owner, k);
        lemma_ray_towards_start(log, size, sx, sy, dx, dy, n, owner, k - 1);
        assert(along(sx, dx, k) - dx == along(sx, dx, k - 1));
        assert(along(sy, dy, k) - dy == along(sy, dy, k - 1));
        assert(walked =~= expected);
    }
}

/// A walk that leaves the run's `j`-th cell off the run's axis finds
/// nothing.
proof fn lemma_ray_off_axis(
    log: Seq<PlayerMove>,
    size: Size,
    sx: int,
    sy: int,
    dx: int,
    dy: int,
    n: int,
    owner: i32,
    j: int,
    ex: int,
    ey: int,
)
    requires
        holds_single_run(log, size, sx, sy, dx, dy, n, owner),
        0 <= j < n,
        is_step(ex, ey),
        !(ex == dx && ey == dy),
        !(ex == -dx && ey == -dy),
    ensures
        ray(log, size, along(sx, dx, j) + ex, along(sy, dy, j) + ey, ex, ey, owner)
            == Seq::<Size>::empty(),
{
    lemma_off_run_not_owned(
        log,
        size,
        sx,
        sy,
        dx,
        dy,
        n,
        owner,
        along(sx, dx, j) + ex,
        along(sy, dy, j) + ey,
    );
}

/// On the run's own axis, the run through its `j`-th cell is the whole run.
proof fn lemma_line_on_own_axis(
    log: Seq<PlayerMove>,
    size: Size,
    sx: int,
    sy: int,
    dx: int,
    dy: int,
    n: int,
    owner: i32,
    j: int,
)
    requires
        holds_single_run(log, size, sx, sy, dx, dy, n, owner),
        0 <= j < n,
    ensures
        line_through(log, size, run_cell(sx, sy, dx, dy, j), dx, dy, owner) == run_from(
            sx,
            sy,
            dx,
            dy,
            n,
            j,
        ),
{
    let pos = run_cell(sx, sy, dx, dy, j);
    assert(0 <= along(sx, dx, j) < size.x && 0 <= along(sy, dy, j) < size.y);
    lemma_ray_towards_start(log, size, sx, sy, dx, dy, n, owner, j - 1);
    lemma_ray_towards_end(log, size, sx, sy, dx, dy, n, owner, j + 1);
    assert(along(sx, dx, j) - dx == along(sx, dx, j - 1));
    assert(along(sy, dy, j) - dy == along(sy, dy, j - 1));
    assert(along(sx, dx, j) + dx == along(sx, dx, j + 1));
    assert(along(sy, dy, j) + dy == along(sy, dy, j + 1));
    assert(line_through(log, size, pos, dx, dy, owner) =~= run_from(sx, sy, dx, dy, n, j));
}

/// On any other axis, the run through the `j`-th cell is that cell alone.
proof fn lemma_line_on_other_axis(
    log: Seq<PlayerMove>,
    size: Size,
    sx: int,
    sy: int,
    dx: int,
    dy: int,
    n: int,
    owner: i32,
    j: int,
    ex: int,
    ey: int,
)
    requires
        holds_single_run(log, size, sx, sy, dx, dy, n, owner),
        0 <= j < n,
        is_axis(ex, ey),
        !(ex == dx && ey == dy),
    ensures
        line_through(log, size, run_cell(sx, sy, dx, dy, j), ex, ey, owner) == seq![
            run_cell(sx, sy, dx, dy, j),
        ],
{
    let pos = run_cell(sx, sy, dx, dy, j);
    assert(0 <= along(sx, dx, j) < size.x && 0 <= along(sy, dy, j) < size.y);
    lemma_ray_off_axis(log, size, sx, sy, dx, dy, n, owner, j, ex, ey);
    lemma_ray_off_axis(log, size, sx, sy, dx, dy, n, owner, j, -ex, -ey);
    assert(line_through(log, size, pos, ex, ey, owner) =~= seq![pos]);
}

/// The cells of the run as line detection reports them from its `j`-th
/// cell: that cell, then those towards the start, then those towards the end.
pub open spec fn run_from(sx: int, sy: int, dx: int, dy: int, n: int, j: int) -> Seq<Size> {
    Seq::new(
        n as nat,
        |i: int|
            if i <= j {
                run_cell(sx, sy, dx, dy, j - i)
            } else {
                run_cell(sx, sy, dx, dy, i)
            },
    )
}

/// On a board that holds `n` cells of one owner in a row on one axis and
/// nothing else, line detection for a win length of `n`, asked at any cell
/// of the run, reports that run and only it: `n` blocking markers, one for
/// each of its cells.
pub proof fn lemma_single_run_detected(
    log: Seq<PlayerMove>,
    size: Size,
    sx: int,
    sy: int,
    dx: int,
    dy: int,
    n: int,
    owner: i32,
    j: int,
)
    requires
        holds_single_run(log, size, sx, sy, dx, dy, n, owner),
        0 <= j < n,
    ensures
        detect_line(log, size, run_cell(sx, sy, dx, dy, j), n as u32) == markers(
            run_from(sx, sy, dx, dy, n, j),
        ),
        detect_line(log, size, run_cell(sx, sy, dx, dy, j), n as u32).len() == n,
{
    let pos = run_cell(sx, sy, dx, dy, j);
    lemma_run_cell_owned(log, size, sx, sy, dx, dy, n, owner, j);
    assert(owner_at(log, pos) == Some(owner));
    lemma_line_on_own_axis(log, size, sx, sy, dx, dy, n, owner, j);
    if !(dx == 1 && dy == 0) {
        lemma_line_on_other_axis(log, size, sx, sy, dx, dy, n, owner, j, 1, 0);
    }
    if !(dx == 0 && dy == 1) {
        lemma_line_on_other_axis(log, size, sx, sy, dx, dy, n, owner, j, 0, 1);
    }
    if !(dx == 1 && dy == 1) {
        lemma_line_on_other_axis(log, size, sx, sy, dx, dy, n, owner, j, 1, 1);
    }
    if !(dx == 1 && dy == -1) {
        lemma_line_on_other_axis(log, size, sx, sy, dx, dy, n, owner, j, 1, -1);
    }
    if n == 1 {
        assert(run_from(sx, sy, dx, dy, n, j) =~= seq![pos]);
    }
}

} // verus!
