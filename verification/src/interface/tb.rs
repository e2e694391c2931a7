//! Two buffers of the terminal screen: the front one is what the screen
//! shows, the back one what it should show next. Drawing writes to the back
//! buffer; the changed cells are then carried over to the front.
use vstd::prelude::*;
use vstd::string::StringSliceAdditionalSpecFns;
use vstd::utf8::encode_utf8_decode_utf8;
use vstd::std_specs::iter::IteratorSpec;
use crate::bs::bytes_eq;
use crate::interface::{DEFAULT_FG, DEFAULT_BG};
use crate::text::{decimal, push_decimal, push_char};

verus! {

/// One cell of the screen: a character and its colours.
#[derive(Clone, Copy, PartialEq, Eq)]
struct Cell {
    ch: char,
    fg_colour: &'static str,
    bg_colour: &'static str,
}

/// A cell taken as values.
pub struct CellView {
    pub ch: char,
    pub fg: Seq<char>,
    pub bg: Seq<char>,
}

impl View for Cell {
    type V = CellView;

    closed spec fn view(&self) -> CellView {
        CellView { ch: self.ch, fg: self.fg_colour@, bg: self.bg_colour@ }
    }
}

/// Character `ch` in colours `fg` and `bg`.
pub open spec fn styled(ch: char, fg: Seq<char>, bg: Seq<char>) -> CellView {
    CellView { ch, fg, bg }
}

/// A blank cell in the default colours.
pub open spec fn blank() -> CellView {
    styled(' ', DEFAULT_FG@, DEFAULT_BG@)
}

impl Default for Cell {
    fn default() -> (c: Self)
        ensures
            c@ == blank(),
    {
        Cell { ch: ' ', fg_colour: DEFAULT_FG, bg_colour: DEFAULT_BG }
    }
}

/// Whether column `x` and row `y` (both counted from 1) lie on a screen of
/// `w` columns and `h` rows.
pub open spec fn on_screen(w: int, h: int, x: int, y: int) -> bool {
    1 <= x <= w && 1 <= y <= h
}

/// The position, in row-major order, of column `x` and row `y` (from 1).
pub open spec fn cell_index(w: int, x: int, y: int) -> int {
    (y - 1) * w + (x - 1)
}

/// The cells once cell (`x`, `y`) is `c`; nothing changes off the screen.
pub open spec fn put(cells: Seq<CellView>, w: int, h: int, x: int, y: int, c: CellView) -> Seq<
    CellView,
> {
    if on_screen(w, h, x, y) {
        cells.update(cell_index(w, x, y), c)
    } else {
        cells
    }
}

/// The cells once `text` is written from column `x` of row `y`, one
/// character per column (the offset counted modulo 65536, as a `u16` is).
pub open spec fn put_str(
    cells: Seq<CellView>,
    w: int,
    h: int,
    x: int,
    y: int,
    text: Seq<char>,
    fg: Seq<char>,
    bg: Seq<char>,
) -> Seq<CellView>
    decreases text.len(),
{
    if text.len() == 0 {
        cells
    } else {
        let i = text.len() - 1;
        put(put_str(cells, w, h, x, y, text.drop_last(), fg, bg), w, h, x + i % 65536, y, styled(text.last(), fg, bg))
    }
}

/// The cells once columns `x + from` up to (not including) `x + to` of row
/// `y` are blanked in colours `fg` and `bg`, from left to right.
pub open spec fn pad(
    cells: Seq<CellView>,
    w: int,
    h: int,
    x: int,
    y: int,
    from: int,
    to: int,
    fg: Seq<char>,
    bg: Seq<char>,
) -> Seq<CellView>
    decreases to - from,
{
    if from >= to {
        cells
    } else {
        pad(put(cells, w, h, x + from, y, styled(' ', fg, bg)), w, h, x, y, from + 1, to, fg, bg)
    }
}

/// The text that moves the cursor to column `x` and row `y` (from 1) and
/// prints cell `c` there.
pub open spec fn cell_update(x: int, y: int, c: CellView) -> Seq<char> {
    "\x1B["@ + decimal(y as nat) + ";"@ + decimal(x as nat) + "H"@ + c.fg + c.bg + seq![c.ch]
}

/// The updates for the first `k` cells of row `y` (from 0): one for each
/// cell whose back value differs from its front value.
pub open spec fn row_updates(front: Seq<CellView>, back: Seq<CellView>, w: int, y: int, k: int) -> Seq<
    char,
>
    decreases k,
{
    if k <= 0 {
        Seq::empty()
    } else {
        let idx = y * w + (k - 1);
        row_updates(front, back, w, y, k - 1) + if back[idx] != front[idx] {
            cell_update(k, y + 1, back[idx])
        } else {
            Seq::empty()
        }
    }
}

/// The updates for the first `r` rows.
pub open spec fn screen_updates(front: Seq<CellView>, back: Seq<CellView>, w: int, r: int) -> Seq<
    char,
>
    decreases r,
{
    if r <= 0 {
        Seq::empty()
    } else {
        screen_updates(front, back, w, r - 1) + row_updates(front, back, w, r - 1, w)
    }
}


/// Whether two cells differ.
fn cells_differ(a: &Cell, b: &Cell) -> (r: bool)
    ensures
        r == (a@ != b@),
{
    !(a.ch == b.ch && crate::text::same_text(a.fg_colour, b.fg_colour) && crate::text::same_text(a.bg_colour, b.bg_colour))
}

/// The screen's two buffers, its size, and the widest and lowest extent of
/// the article list drawn last.
pub struct TerminalBuffer {
    pub width: u16,
    pub height: u16,
    front: Vec<Cell>,
    back: Vec<Cell>,
    pub previous_max_width: u16,
    pub previous_max_height: u16,
}

impl TerminalBuffer {
    /// What the screen shows.
    pub closed spec fn front_cells(&self) -> Seq<CellView> {
        self.front@.map_values(|c: Cell| c@)
    }

    /// What the screen should show next.
    pub closed spec fn back_cells(&self) -> Seq<CellView> {
        self.back@.map_values(|c: Cell| c@)
    }

    /// The number of columns.
    pub closed spec fn cols(&self) -> u16 {
        self.width
    }

    /// The number of rows.
    pub closed spec fn rows(&self) -> u16 {
        self.height
    }

    /// The right edge of the article list drawn last.
    pub closed spec fn drawn_width(&self) -> u16 {
        self.previous_max_width
    }

    /// The bottom row of the article list drawn last.
    pub closed spec fn drawn_height(&self) -> u16 {
        self.previous_max_height
    }

    /// The number of columns.
    pub fn width(&self) -> (r: u16)
        ensures
            r == self.cols(),
    {
        self.width
    }

    /// The number of rows.
    pub fn height(&self) -> (r: u16)
        ensures
            r == self.rows(),
    {
        self.height
    }

    /// The right edge of the article list drawn last.
    pub fn previous_max_width(&self) -> (r: u16)
        ensures
            r == self.drawn_width(),
    {
        self.previous_max_width
    }

    /// The bottom row of the article list drawn last.
    pub fn previous_max_height(&self) -> (r: u16)
        ensures
            r == self.drawn_height(),
    {
        self.previous_max_height
    }

    /// Records the right edge of the article list just drawn.
    pub fn set_previous_max_width(&mut self, v: u16)
        ensures
            final(self).drawn_width() == v,
            final(self).drawn_height() == old(self).drawn_height(),
            final(self).cols() == old(self).cols(),
            final(self).rows() == old(self).rows(),
            final(self).front_cells() == old(self).front_cells(),
            final(self).back_cells() == old(self).back_cells(),
            final(self).wf() == old(self).wf(),
    {
        self.previous_max_width = v;
    }

    /// Records the bottom row of the article list just drawn.
    pub fn set_previous_max_height(&mut self, v: u16)
        ensures
            final(self).drawn_height() == v,
            final(self).drawn_width() == old(self).drawn_width(),
            final(self).cols() == old(self).cols(),
            final(self).rows() == old(self).rows(),
            final(self).front_cells() == old(self).front_cells(),
            final(self).back_cells() == old(self).back_cells(),
            final(self).wf() == old(self).wf(),
    {
        self.previous_max_height = v;
    }

    /// Both buffers hold one cell for each column of each row.
    pub closed spec fn wf(&self) -> bool {
        &&& self.front@.len() == self.width * self.height
        &&& self.back@.len() == self.width * self.height
    }

    /// A buffer is well formed exactly where both its buffers hold one cell
    /// for each column of each row. Every method keeps `wf`, the number of
    /// columns and the number of rows, and so keeps both buffers that long.
    pub proof fn lemma_sizes(&self)
        ensures
            self.wf() <==> (self.front_cells().len() == self.cols() * self.rows()
                && self.back_cells().len() == self.cols() * self.rows()),
    {
    }

    /// A screen of `width` columns and `height` rows, blank in both buffers.
    pub fn new(width: u16, height: u16) -> (b: Self)
        ensures
            b.wf(),
            b.cols() == width,
            b.rows() == height,
            b.front_cells() == Seq::new((width * height) as nat, |i: int| blank()),
            b.back_cells() == Seq::new((width * height) as nat, |i: int| blank()),
            b.drawn_width() == 0,
            b.drawn_height() == 0,
    {
        assert((width as int) * (height as int) <= 65535 * 65535) by (nonlinear_arith)
            requires
                width <= 65535,
                height <= 65535,
        ;
        let size = (width as usize) * (height as usize);
        let mut front: Vec<Cell> = Vec::new();
        let mut back: Vec<Cell> = Vec::new();
        let mut i: usize = 0;
        while i < size
            invariant
                i <= size,
                front@.len() == i,
                back@.len() == i,
                forall|k: int| 0 <= k < i ==> #[trigger] front@[k]@ == blank(),
                forall|k: int| 0 <= k < i ==> #[trigger] back@[k]@ == blank(),
            decreases size - i,
        {
            front.push(Cell::default());
            back.push(Cell::default());
            i += 1;
        }
        let b = TerminalBuffer {
            width,
            height,
            front,
            back,
            previous_max_width: 0,
            previous_max_height: 0,
        };
        proof {
            assert(b.front_cells() =~= Seq::new((width * height) as nat, |i: int| blank()));
            assert(b.back_cells() =~= Seq::new((width * height) as nat, |i: int| blank()));
        }
        b
    }

    /// Sets cell (`x`, `y`) of the back buffer (both counted from 1); a cell
    /// off the screen is ignored.
    pub fn set_cell(&mut self, x: u16, y: u16, ch: char, fg: &'static str, bg: &'static str)
        requires
            old(self).wf(),
        ensures
            final(self).wf(),
            final(self).cols() == old(self).cols(),
            final(self).rows() == old(self).rows(),
            final(self).drawn_width() == old(self).drawn_width(),
            final(self).drawn_height() == old(self).drawn_height(),
            final(self).front_cells() == old(self).front_cells(),
            final(self).back_cells() == put(
                old(self).back_cells(),
                old(self).cols() as int,
                old(self).rows() as int,
                x as int,
                y as int,
                styled(ch, fg@, bg@),
            ),
    {
        if x == 0 || y == 0 || x > self.width || y > self.height {
            return ;
        }
        let w = self.width as usize;
        let h = self.height as usize;
        assert((y - 1) * w + (x - 1) < w * h && (y - 1) * w <= w * h && w * h <= 65535 * 65535)
            by (nonlinear_arith)
            requires
                1 <= x <= w,
                1 <= y <= h,
                w <= 65535,
                h <= 65535,
        ;
        let index = ((y - 1) as usize) * w + ((x - 1) as usize);
        let c = Cell { ch, fg_colour: fg, bg_colour: bg };
        self.back.set(index, c);
        proof {
            assert(self.back_cells() =~= old(self).back_cells().update(index as int, c@));
        }
    }

    /// Writes `text` into the back buffer from column `x` of row `y`, one
    /// character per column; cells off the screen are ignored.
    pub fn print_str(&mut self, x: u16, y: u16, text: &str, fg: &'static str, bg: &'static str)
        requires
            old(self).wf(),
            x == 0 || x + text@.len() <= u16::MAX + 1,
        ensures
            final(self).wf(),
            final(self).cols() == old(self).cols(),
            final(self).rows() == old(self).rows(),
            final(self).drawn_width() == old(self).drawn_width(),
            final(self).drawn_height() == old(self).drawn_height(),
            final(self).front_cells() == old(self).front_cells(),
            final(self).back_cells() == put_str(
                old(self).back_cells(),
                old(self).cols() as int,
                old(self).rows() as int,
                x as int,
                y as int,
                text@,
                fg@,
                bg@,
            ),
    {
        let mut k: u16 = 0;
        let ghost mut i: int = 0;
        let mut chars = text.chars();
        proof {
            assert(text@.take(0) =~= Seq::<char>::empty());
        }
        loop
            invariant
                self.wf(),
                self.cols() == old(self).cols(),
                self.rows() == old(self).rows(),
                self.drawn_width() == old(self).drawn_width(),
                self.drawn_height() == old(self).drawn_height(),
                self.front_cells() == old(self).front_cells(),
                x == 0 || x + text@.len() <= u16::MAX + 1,
                0 <= i <= text@.len(),
                k == i % 65536,
                chars.remaining() == text@.skip(i),
                self.back_cells() == put_str(
                    old(self).back_cells(),
                    old(self).cols() as int,
                    old(self).rows() as int,
                    x as int,
                    y as int,
                    text@.take(i),
                    fg@,
                    bg@,
                ),
            decreases text@.len() - i,
        {
            match chars.next() {
                Some(ch) => {
                    proof {
                        assert(text@.skip(i)[0] == text@[i]);
                        assert(text@.take(i + 1).drop_last() =~= text@.take(i));
                        assert(text@.take(i + 1).last() == text@[i]);
                        assert(text@.skip(i).drop_first() =~= text@.skip(i + 1));
                    }
                    self.set_cell(x + k, y, ch, fg, bg);
                    k = k.wrapping_add(1);
                    proof {
                        i = i + 1;
                    }
                },
                None => {
                    proof {
                        assert(text@.take(i) =~= text@);
                    }
                    return ;
                },
            }
        }
    }

    /// Writes `text` as `print_str` does, then blanks the columns after it up
    /// to `max_len` columns from `x`.
    pub fn print_str_padded(
        &mut self,
        x: u16,
        y: u16,
        text: &str,
        fg: &'static str,
        bg: &'static str,
        max_len: u16,
    )
        requires
            old(self).wf(),
            text@.len() <= u16::MAX,
            text@.len() == 0 || x + text@.len() <= u16::MAX + 1,
            text@.len() >= max_len || x + max_len <= u16::MAX + 1,
        ensures
            final(self).wf(),
            final(self).cols() == old(self).cols(),
            final(self).rows() == old(self).rows(),
            final(self).drawn_width() == old(self).drawn_width(),
            final(self).drawn_height() == old(self).drawn_height(),
            final(self).front_cells() == old(self).front_cells(),
            final(self).back_cells() == pad(
                put_str(
                    old(self).back_cells(),
                    old(self).cols() as int,
                    old(self).rows() as int,
                    x as int,
                    y as int,
                    text@,
                    fg@,
                    bg@,
                ),
                old(self).cols() as int,
                old(self).rows() as int,
                x as int,
                y as int,
                text@.len() as int,
                max_len as int,
                fg@,
                bg@,
            ),
    {
        let mut char_count: u16 = 0;
        let mut chars = text.chars();
        proof {
            assert(text@.take(0) =~= Seq::<char>::empty());
        }
        loop
            invariant
                self.wf(),
                self.cols() == old(self).cols(),
                self.rows() == old(self).rows(),
                self.drawn_width() == old(self).drawn_width(),
                self.drawn_height() == old(self).drawn_height(),
                self.front_cells() == old(self).front_cells(),
                text@.len() <= u16::MAX,
                text@.len() == 0 || x + text@.len() <= u16::MAX + 1,
                char_count <= text@.len(),
                chars.remaining() == text@.skip(char_count as int),
                self.back_cells() == put_str(
                    old(self).back_cells(),
                    old(self).cols() as int,
                    old(self).rows() as int,
                    x as int,
                    y as int,
                    text@.take(char_count as int),
                    fg@,
                    bg@,
                ),
            ensures
                self.wf(),
                self.cols() == old(self).cols(),
                self.rows() == old(self).rows(),
                self.drawn_width() == old(self).drawn_width(),
                self.drawn_height() == old(self).drawn_height(),
                self.front_cells() == old(self).front_cells(),
                char_count == text@.len(),
                self.back_cells() == put_str(
                    old(self).back_cells(),
                    old(self).cols() as int,
                    old(self).rows() as int,
                    x as int,
                    y as int,
                    text@,
                    fg@,
                    bg@,
                ),
            decreases text@.len() - char_count,
        {
            match chars.next() {
                Some(ch) => {
                    proof {
                        assert(text@.skip(char_count as int)[0] == text@[char_count as int]);
                        assert(text@.take(char_count + 1).drop_last() =~= text@.take(char_count as int));
                        assert(text@.take(char_count + 1).last() == text@[char_count as int]);
                        assert(text@.skip(char_count as int).drop_first() =~= text@.skip(char_count + 1));
                    }
                    self.set_cell(x + char_count, y, ch, fg, bg);
                    char_count += 1;
                },
                None => {
                    proof {
                        assert(text@.take(char_count as int) =~= text@);
                    }
                    break;
                },
            }
        }
        let ghost written = self.back_cells();
        let mut i = char_count;
        while i < max_len
            invariant
                self.wf(),
                self.cols() == old(self).cols(),
                self.rows() == old(self).rows(),
                self.drawn_width() == old(self).drawn_width(),
                self.drawn_height() == old(self).drawn_height(),
                self.front_cells() == old(self).front_cells(),
                char_count == text@.len(),
                text@.len() >= max_len || x + max_len <= u16::MAX + 1,
                char_count <= i,
                pad(
                    written,
                    old(self).cols() as int,
                    old(self).rows() as int,
                    x as int,
                    y as int,
                    char_count as int,
                    max_len as int,
                    fg@,
                    bg@,
                ) == pad(
                    self.back_cells(),
                    old(self).cols() as int,
                    old(self).rows() as int,
                    x as int,
                    y as int,
                    i as int,
                    max_len as int,
                    fg@,
                    bg@,
                ),
            decreases max_len - i,
        {
            self.set_cell(x + i, y, ' ', fg, bg);
            i += 1;
        }
    }

    /// Blanks every cell of the back buffer.
    pub fn clear_back_buffer(&mut self)
        requires
            old(self).wf(),
        ensures
            final(self).wf(),
            final(self).cols() == old(self).cols(),
            final(self).rows() == old(self).rows(),
            final(self).drawn_width() == old(self).drawn_width(),
            final(self).drawn_height() == old(self).drawn_height(),
            final(self).front_cells() == old(self).front_cells(),
            final(self).back_cells() == Seq::new(old(self).back_cells().len(), |i: int| blank()),
    {
        let default_cell = Cell::default();
        let mut i: usize = 0;
        while i < self.back.len()
            invariant
                self.wf(),
                self.cols() == old(self).cols(),
                self.rows() == old(self).rows(),
                self.drawn_width() == old(self).drawn_width(),
                self.drawn_height() == old(self).drawn_height(),
                self.front_cells() == old(self).front_cells(),
                self.back@.len() == old(self).back@.len(),
                default_cell@ == blank(),
                i <= self.back@.len(),
                forall|k: int| 0 <= k < i ==> #[trigger] self.back@[k]@ == blank(),
            decreases self.back@.len() - i,
        {
            self.back.set(i, default_cell);
            i += 1;
        }
        proof {
            assert(self.back_cells() =~= Seq::new(old(self).back_cells().len(), |i: int| blank()));
        }
    }

    /// Carries the changed cells of the back buffer over to the front one, and
    /// returns the text that makes the screen show them: for each changed
    /// cell, in row-major order, a cursor move to it, its colours and its
    /// character.
    pub fn take_screen_updates(&mut self) -> (out: String)
        requires
            old(self).wf(),
        ensures
            final(self).wf(),
            final(self).cols() == old(self).cols(),
            final(self).rows() == old(self).rows(),
            final(self).drawn_width() == old(self).drawn_width(),
            final(self).drawn_height() == old(self).drawn_height(),
            final(self).back_cells() == old(self).back_cells(),
            final(self).front_cells() == old(self).back_cells(),
            out@ == screen_updates(
                old(self).front_cells(),
                old(self).back_cells(),
                old(self).cols() as int,
                old(self).rows() as int,
            ),
    {
        let ghost front0 = self.front_cells();
        let ghost back0 = self.back_cells();
        let w = self.width;
        let h = self.height;
        let ghost wi = w as int;
        let mut out = String::new();
        let mut y: u16 = 0;
        assert(w as int * h as int <= 65535 * 65535) by (nonlinear_arith)
            requires
                w <= 65535,
                h <= 65535,
        ;
        while y < h
            invariant
                self.wf(),
                self.cols() == w,
                self.rows() == h,
                wi == w as int,
                self.drawn_width() == old(self).drawn_width(),
                self.drawn_height() == old(self).drawn_height(),
                self.back_cells() == back0,
                front0 == old(self).front_cells(),
                back0 == old(self).back_cells(),
                front0.len() == wi * h,
                wi * h <= 65535 * 65535,
                y <= h,
                forall|k: int|
                    0 <= k < wi * h ==> #[trigger] self.front_cells()[k] == if k < y * wi {
                        back0[k]
                    } else {
                        front0[k]
                    },
                out@ == screen_updates(front0, back0, wi, y as int),
            decreases h - y,
        {
            let mut x: u16 = 0;
            assert(y * wi + wi <= wi * h) by (nonlinear_arith)
                requires
                    y < h,
                    0 <= wi,
            ;
            while x < w
                invariant
                    self.wf(),
                    self.cols() == w,
                    self.rows() == h,
                    wi == w as int,
                    self.drawn_width() == old(self).drawn_width(),
                    self.drawn_height() == old(self).drawn_height(),
                    self.back_cells() == back0,
                    front0.len() == wi * h,
                    wi * h <= 65535 * 65535,
                    y < h,
                    y * wi + wi <= wi * h,
                    x <= w,
                    forall|k: int|
                        0 <= k < wi * h ==> #[trigger] self.front_cells()[k] == if k < y * wi + x {
                            back0[k]
                        } else {
                            front0[k]
                        },
                    out@ == screen_updates(front0, back0, wi, y as int) + row_updates(
                        front0,
                        back0,
                        wi,
                        y as int,
                        x as int,
                    ),
                decreases w - x,
            {
                let idx = (y as usize) * (w as usize) + (x as usize);
                assert(idx == y * wi + x);
                let ghost before = out@;
                let ghost fr = self.front_cells();
                assert(fr[idx as int] == front0[idx as int]);
                assert(self.back@[idx as int]@ == back0[idx as int]);
                assert(self.front@[idx as int]@ == fr[idx as int]);
                let differ = cells_differ(&self.back[idx], &self.front[idx]);
                assert(row_updates(front0, back0, wi, y as int, x + 1) == row_updates(
                    front0,
                    back0,
                    wi,
                    y as int,
                    x as int,
                ) + if back0[idx as int] != front0[idx as int] {
                    cell_update(x + 1, y + 1, back0[idx as int])
                } else {
                    Seq::empty()
                });
                if differ {
                    let c = self.back[idx];
                    out.append("\x1B[");
                    push_decimal(&mut out, (y as usize) + 1);
                    out.append(";");
                    push_decimal(&mut out, (x as usize) + 1);
                    out.append("H");
                    out.append(c.fg_colour);
                    out.append(c.bg_colour);
                    push_char(&mut out, c.ch);
                    self.front.set(idx, c);
                    proof {
                        assert(out@ =~= before + cell_update(x + 1, y + 1, back0[idx as int]));
                        assert(self.front_cells() =~= fr.update(idx as int, back0[idx as int]));
                    }
                } else {
                    proof {
                        assert(out@ =~= before + Seq::<char>::empty());
                        assert(back0[idx as int] == front0[idx as int]);
                    }
                }
                proof {
                    assert(out@ =~= screen_updates(front0, back0, wi, y as int) + row_updates(
                        front0,
                        back0,
                        wi,
                        y as int,
                        x + 1,
                    ));
                }
                proof {
                    assert forall|k: int| 0 <= k < wi * h implies #[trigger] self.front_cells()[k]
                        == if k < y * wi + x + 1 {
                        back0[k]
                    } else {
                        front0[k]
                    } by {}
                }
                x += 1;
            }
            proof {
                assert((y + 1) * wi == y * wi + wi) by (nonlinear_arith);
            }
            y += 1;
        }
        proof {
            assert(self.front_cells() =~= back0);
        }
        out
    }
}

/// Writing a cell leaves every other cell as it was.
pub proof fn law_put_changes_one_cell(
    cells: Seq<CellView>,
    w: int,
    h: int,
    x: int,
    y: int,
    c: CellView,
    k: int,
)
    requires
        cells.len() == w * h,
        0 <= k < cells.len(),
        !(on_screen(w, h, x, y) && k == cell_index(w, x, y)),
    ensures
        put(cells, w, h, x, y, c)[k] == cells[k],
{
    if on_screen(w, h, x, y) {
        assert(0 <= (y - 1) * w + (x - 1) < w * h) by (nonlinear_arith)
            requires
                1 <= x <= w,
                1 <= y <= h,
        ;
    }
}

proof fn lemma_no_row_updates(cells: Seq<CellView>, w: int, y: int, k: int)
    ensures
        row_updates(cells, cells, w, y, k) == Seq::<char>::empty(),
    decreases k,
{
    if k > 0 {
        lemma_no_row_updates(cells, w, y, k - 1);
        assert(Seq::<char>::empty() + Seq::<char>::empty() =~= Seq::<char>::empty());
    }
}

/// Once the front buffer holds what the back buffer holds, there is nothing
/// left to send to the screen.
pub proof fn law_no_updates_when_buffers_agree(cells: Seq<CellView>, w: int, r: int)
    ensures
        screen_updates(cells, cells, w, r) == Seq::<char>::empty(),
    decreases r,
{
    if r > 0 {
        law_no_updates_when_buffers_agree(cells, w, r - 1);
        lemma_no_row_updates(cells, w, r - 1, w);
        assert(Seq::<char>::empty() + Seq::<char>::empty() =~= Seq::<char>::empty());
    }
}

/// Distinct cells of a row-major screen have distinct positions.
proof fn lemma_cell_positions_differ(w: int, r1: int, c1: int, r2: int, c2: int)
    requires
        0 <= c1 < w,
        0 <= c2 < w,
        r1 != r2 || c1 != c2,
    ensures
        r1 * w + c1 != r2 * w + c2,
{
    if r1 != r2 {
        if r1 < r2 {
            assert(r1 * w + w <= r2 * w) by (nonlinear_arith)
                requires
                    r1 < r2,
                    0 < w,
            ;
        } else {
            assert(r2 * w + w <= r1 * w) by (nonlinear_arith)
                requires
                    r2 < r1,
                    0 < w,
            ;
        }
    }
}

/// A row in which no cell changed sends nothing; the row of the one changed
/// cell sends its update once the cell is reached.
proof fn lemma_row_updates_one_cell(
    front: Seq<CellView>,
    w: int,
    h: int,
    x: int,
    y: int,
    c: CellView,
    r: int,
    k: int,
)
    requires
        front.len() == w * h,
        on_screen(w, h, x, y),
        front[cell_index(w, x, y)] != c,
        0 <= r < h,
        0 <= k <= w,
    ensures
        row_updates(front, front.update(cell_index(w, x, y), c), w, r, k) == if r == y - 1 && k >= x {
            cell_update(x, y, c)
        } else {
            Seq::<char>::empty()
        },
    decreases k,
{
    let back = front.update(cell_index(w, x, y), c);
    if k > 0 {
        lemma_row_updates_one_cell(front, w, h, x, y, c, r, k - 1);
        let idx = r * w + (k - 1);
        assert(0 <= idx < w * h) by (nonlinear_arith)
            requires
                0 <= r < h,
                1 <= k <= w,
                idx == r * w + (k - 1),
        ;
        assert(0 <= (y - 1) * w + (x - 1) < w * h) by (nonlinear_arith)
            requires
                1 <= x <= w,
                1 <= y <= h,
        ;
        if r == y - 1 && k == x {
            assert(idx == cell_index(w, x, y));
            assert(Seq::<char>::empty() + cell_update(x, y, c) =~= cell_update(x, y, c));
        } else {
            lemma_cell_positions_differ(w, r, k - 1, y - 1, x - 1);
            assert(back[idx] == front[idx]);
            if r == y - 1 && k - 1 >= x {
                assert(cell_update(x, y, c) + Seq::<char>::empty() =~= cell_update(x, y, c));
            } else {
                assert(Seq::<char>::empty() + Seq::<char>::empty() =~= Seq::<char>::empty());
            }
        }
    }
}

proof fn lemma_screen_updates_one_cell(front: Seq<CellView>, w: int, h: int, x: int, y: int, c: CellView, r: int)
    requires
        front.len() == w * h,
        on_screen(w, h, x, y),
        front[cell_index(w, x, y)] != c,
        0 <= r <= h,
    ensures
        screen_updates(front, front.update(cell_index(w, x, y), c), w, r) == if r >= y {
            cell_update(x, y, c)
        } else {
            Seq::<char>::empty()
        },
    decreases r,
{
    if r > 0 {
        lemma_screen_updates_one_cell(front, w, h, x, y, c, r - 1);
        lemma_row_updates_one_cell(front, w, h, x, y, c, r - 1, w);
        if r - 1 == y - 1 {
            assert(Seq::<char>::empty() + cell_update(x, y, c) =~= cell_update(x, y, c));
        } else if r - 1 >= y {
            assert(cell_update(x, y, c) + Seq::<char>::empty() =~= cell_update(x, y, c));
        } else {
            assert(Seq::<char>::empty() + Seq::<char>::empty() =~= Seq::<char>::empty());
        }
    }
}

/// On a screen whose two buffers agree, setting the cell at column `x` and
/// row `y` (from 1) to a new value makes the next updates exactly one: the
/// cursor moved to row `y`, column `x`, then the cell's colours and
/// character.
pub proof fn law_set_cell_sends_one_update(cells: Seq<CellView>, w: int, h: int, x: int, y: int, c: CellView)
    requires
        cells.len() == w * h,
        on_screen(w, h, x, y),
        cells[(y - 1) * w + (x - 1)] != c,
    ensures
        screen_updates(cells, put(cells, w, h, x, y, c), w, h) == seq!['\x1B', '['] + decimal(y as nat)
            + seq![';'] + decimal(x as nat) + seq!['H'] + c.fg + c.bg + seq![c.ch],
{
    lemma_screen_updates_one_cell(cells, w, h, x, y, c, h);
    reveal_strlit("\x1B[");
    reveal_strlit(";");
    reveal_strlit("H");
    assert("\x1B["@ =~= seq!['\x1B', '[']);
    assert(";"@ =~= seq![';']);
    assert("H"@ =~= seq!['H']);
}

} // verus!
