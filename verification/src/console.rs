//! Drawing a terminal's cells on the UEFI text console: the terminal's
//! colours mapped onto the console's sixteen (or onto RGB for a pixel
//! framebuffer), and the cells batched into runs so that one console call
//! writes many cells: a run holds consecutive cells of one row in one
//! colour pair, up to a fixed capacity.
use vstd::prelude::*;

verus! {

/// A terminal colour as the UI library names it.
#[derive(Debug, Clone, Copy, PartialEq, Eq, Structural)]
pub enum TermColor {
    Reset,
    Black,
    Red,
    Green,
    Yellow,
    Blue,
    Magenta,
    Cyan,
    Gray,
    DarkGray,
    LightRed,
    LightGreen,
    LightYellow,
    LightBlue,
    LightMagenta,
    LightCyan,
    White,
    Rgb(u8, u8, u8),
    Indexed(u8),
}

/// The sixteen colours of the UEFI text console.
#[derive(Debug, Clone, Copy, PartialEq, Eq, Structural)]
pub enum ConsoleColor {
    Black,
    Blue,
    Green,
    Cyan,
    Red,
    Magenta,
    Brown,
    LightGray,
    DarkGray,
    LightBlue,
    LightGreen,
    LightCyan,
    LightRed,
    LightMagenta,
    Yellow,
    White,
}

/// The console colour a terminal colour is shown in. The console has no
/// true colour, so RGB and palette-indexed colours fall back to white.
pub open spec fn spec_console_color(c: TermColor) -> ConsoleColor {
    match c {
        TermColor::Reset | TermColor::Black => ConsoleColor::Black,
        TermColor::Red => ConsoleColor::Red,
        TermColor::Green => ConsoleColor::Green,
        TermColor::Yellow => ConsoleColor::Brown,
        TermColor::Blue => ConsoleColor::Blue,
        TermColor::Magenta => ConsoleColor::Magenta,
        TermColor::Cyan => ConsoleColor::Cyan,
        TermColor::Gray => ConsoleColor::LightGray,
        TermColor::DarkGray => ConsoleColor::DarkGray,
        TermColor::LightRed => ConsoleColor::LightRed,
        TermColor::LightGreen => ConsoleColor::LightGreen,
        TermColor::LightYellow => ConsoleColor::Yellow,
        TermColor::LightBlue => ConsoleColor::LightBlue,
        TermColor::LightMagenta => ConsoleColor::LightMagenta,
        TermColor::LightCyan => ConsoleColor::LightCyan,
        TermColor::White => ConsoleColor::White,
        TermColor::Rgb(..) | TermColor::Indexed(_) => ConsoleColor::White,
    }
}

/// Maps a terminal colour onto the console's palette.
pub fn console_color(c: TermColor) -> (r: ConsoleColor)
    ensures
        r == spec_console_color(c),
{
    match c {
        TermColor::Reset | TermColor::Black => ConsoleColor::Black,
        TermColor::Red => ConsoleColor::Red,
        TermColor::Green => ConsoleColor::Green,
        TermColor::Yellow => ConsoleColor::Brown,
        TermColor::Blue => ConsoleColor::Blue,
        TermColor::Magenta => ConsoleColor::Magenta,
        TermColor::Cyan => ConsoleColor::Cyan,
        TermColor::Gray => ConsoleColor::LightGray,
        TermColor::DarkGray => ConsoleColor::DarkGray,
        TermColor::LightRed => ConsoleColor::LightRed,
        TermColor::LightGreen => ConsoleColor::LightGreen,
        TermColor::LightYellow => ConsoleColor::Yellow,
        TermColor::LightBlue => ConsoleColor::LightBlue,
        TermColor::LightMagenta => ConsoleColor::LightMagenta,
        TermColor::LightCyan => ConsoleColor::LightCyan,
        TermColor::White => ConsoleColor::White,
        TermColor::Rgb(..) | TermColor::Indexed(_) => ConsoleColor::White,
    }
}

/// The RGB value a terminal colour is drawn in on a pixel framebuffer: the
/// named colours as a classic sixteen-colour VGA palette, RGB as given,
/// and palette-indexed colours as white.
pub open spec fn spec_rgb(c: TermColor) -> (u8, u8, u8) {
    match c {
        TermColor::Reset | TermColor::Black => (0, 0, 0),
        TermColor::Red => (170, 0, 0),
        TermColor::Green => (0, 170, 0),
        TermColor::Yellow => (170, 85, 0),
        TermColor::Blue => (0, 0, 170),
        TermColor::Magenta => (170, 0, 170),
        TermColor::Cyan => (0, 170, 170),
        TermColor::Gray => (170, 170, 170),
        TermColor::DarkGray => (85, 85, 85),
        TermColor::LightRed => (255, 85, 85),
        TermColor::LightGreen => (85, 255, 85),
        TermColor::LightYellow => (255, 255, 85),
        TermColor::LightBlue => (85, 85, 255),
        TermColor::LightMagenta => (255, 85, 255),
        TermColor::LightCyan => (85, 255, 255),
        TermColor::White => (255, 255, 255),
        TermColor::Rgb(r, g, b) => (r, g, b),
        TermColor::Indexed(_) => (255, 255, 255),
    }
}

/// The RGB value of a terminal colour.
pub fn rgb(c: TermColor) -> (r: (u8, u8, u8))
    ensures
        r == spec_rgb(c),
{
    match c {
        TermColor::Reset | TermColor::Black => (0, 0, 0),
        TermColor::Red => (170, 0, 0),
        TermColor::Green => (0, 170, 0),
        TermColor::Yellow => (170, 85, 0),
        TermColor::Blue => (0, 0, 170),
        TermColor::Magenta => (170, 0, 170),
        TermColor::Cyan => (0, 170, 170),
        TermColor::Gray => (170, 170, 170),
        TermColor::DarkGray => (85, 85, 85),
        TermColor::LightRed => (255, 85, 85),
        TermColor::LightGreen => (85, 255, 85),
        TermColor::LightYellow => (255, 255, 85),
        TermColor::LightBlue => (85, 85, 255),
        TermColor::LightMagenta => (255, 85, 255),
        TermColor::LightCyan => (85, 255, 255),
        TermColor::White => (255, 255, 255),
        TermColor::Rgb(r, g, b) => (r, g, b),
        TermColor::Indexed(_) => (255, 255, 255),
    }
}

/// The UCS-2 code the console is given for `ch`: the character itself
/// when it lies in the basic multilingual plane, `?` otherwise.
pub fn ucs2_code(ch: char) -> (r: u16)
    ensures
        (ch as u32) < 0x10000 ==> r == ch as u32,
        (ch as u32) >= 0x10000 ==> r == 0x3f,
{
    let v = ch as u32;
    if v < 0x10000 {
        v as u16
    } else {
        0x3f
    }
}

/// The console's colour must be set before a run in `fg` on `bg` is
/// written, unless those are the colours it was last set to.
pub fn needs_color_change(last: Option<(ConsoleColor, ConsoleColor)>, fg: ConsoleColor, bg: ConsoleColor) -> (r: bool)
    ensures
        r == (last != Some((fg, bg))),
{
    match last {
        Some((f, b)) => !(f == fg && b == bg),
        None => true,
    }
}

/// Most cells one console call writes: the line buffer holds 256 UCS-2
/// units, one of them the terminating NUL.
pub const RUN_CAPACITY: usize = 255;

/// One terminal cell to draw: its column and row, colours, and character.
#[derive(Debug, Clone, Copy, PartialEq, Eq, Structural)]
pub struct ConsoleCell {
    pub x: u16,
    pub y: u16,
    pub fg: ConsoleColor,
    pub bg: ConsoleColor,
    pub code: u16,
}

/// Cells written by one console call: from column `x` of row `y`, in `fg`
/// on `bg`.
#[derive(Debug, Clone)]
pub struct Run {
    pub x: u16,
    pub y: u16,
    pub fg: ConsoleColor,
    pub bg: ConsoleColor,
    pub text: Vec<u16>,
}

/// A run as a mathematical value.
pub struct RunView {
    pub x: u16,
    pub y: u16,
    pub fg: ConsoleColor,
    pub bg: ConsoleColor,
    pub text: Seq<u16>,
}

impl View for Run {
    type V = RunView;

    open spec fn view(&self) -> RunView {
        RunView { x: self.x, y: self.y, fg: self.fg, bg: self.bg, text: self.text@ }
    }
}

/// `c` continues run `r`: same row, the column right after the run's
/// last cell, same colours, and room left in the run.
pub open spec fn continues(r: RunView, c: ConsoleCell) -> bool {
    &&& r.y == c.y
    &&& c.x == r.x + r.text.len()
    &&& c.fg == r.fg
    &&& c.bg == r.bg
    &&& r.text.len() < RUN_CAPACITY
}

/// A run of the single cell `c`.
pub open spec fn single(c: ConsoleCell) -> RunView {
    RunView { x: c.x, y: c.y, fg: c.fg, bg: c.bg, text: seq![c.code] }
}

/// The runs `cells` are drawn with, in order: each cell extends the
/// previous run when it continues it, and starts a new run otherwise.
pub open spec fn batch(cells: Seq<ConsoleCell>) -> Seq<RunView>
    decreases cells.len(),
{
    if cells.len() == 0 {
        Seq::empty()
    } else {
        let prev = batch(cells.drop_last());
        let c = cells.last();
        if prev.len() > 0 && continues(prev.last(), c) {
            let r = prev.last();
            prev.update(prev.len() - 1, RunView { text: r.text.push(c.code), ..r })
        } else {
            prev.push(single(c))
        }
    }
}

/// Every prefix of the cells has at least one run once it has a cell.
proof fn lemma_batch_nonempty(cells: Seq<ConsoleCell>)
    ensures
        cells.len() > 0 ==> batch(cells).len() > 0,
        batch(cells).len() <= cells.len(),
    decreases cells.len(),
{
    if cells.len() > 0 {
        lemma_batch_nonempty(cells.drop_last());
    }
}

/// Groups `cells`, in drawing order, into the runs that draw them.
pub fn batch_runs(cells: &[ConsoleCell]) -> (r: Vec<Run>)
    ensures
        r@.map_values(|run: Run| run@) == batch(cells@),
{
    let n = cells.len();
    let mut out: Vec<Run> = Vec::new();
    if n == 0 {
        proof {
            assert(out@.map_values(|run: Run| run@) =~= batch(cells@));
        }
        return out;
    }
    let first = cells[0];
    let mut cur = Run { x: first.x, y: first.y, fg: first.fg, bg: first.bg, text: Vec::new() };
    cur.text.push(first.code);
    proof {
        assert(cells@.take(1).drop_last() =~= Seq::<ConsoleCell>::empty());
        assert(batch(Seq::<ConsoleCell>::empty()) =~= Seq::<RunView>::empty());
        assert(cells@.take(1).last() == first);
        assert(cur.text@ =~= seq![first.code]);
        assert(cur@ == single(first));
        assert(out@.map_values(|run: Run| run@).push(cur@) =~= batch(cells@.take(1)));
    }
    let mut i = 1usize;
    while i < n
        invariant
            n == cells@.len(),
            1 <= i <= n,
            1 <= cur.text@.len() <= RUN_CAPACITY,
            out@.map_values(|run: Run| run@).push(cur@) == batch(cells@.take(i as int)),
        decreases n - i,
    {
        let c = cells[i];
        proof {
            assert(cells@.take(i + 1).drop_last() =~= cells@.take(i as int));
            assert(cells@.take(i + 1).last() == c);
            let b = batch(cells@.take(i as int));
            assert(b.last() == cur@);
        }
        let len = cur.text.len();
        let joins = c.y == cur.y && c.x as usize == cur.x as usize + len && c.fg == cur.fg && c.bg == cur.bg
            && len < RUN_CAPACITY;
        if joins {
            cur.text.push(c.code);
            proof {
                let prev = out@.map_values(|run: Run| run@);
                assert(prev.push(cur@) =~= batch(cells@.take(i as int)).update(
                    batch(cells@.take(i as int)).len() - 1,
                    cur@,
                ));
            }
        } else {
            let done = cur;
            let ghost prev = out@.map_values(|run: Run| run@);
            out.push(done);
            cur = Run { x: c.x, y: c.y, fg: c.fg, bg: c.bg, text: Vec::new() };
            cur.text.push(c.code);
            proof {
                assert(out@.map_values(|run: Run| run@) =~= prev.push(done@));
                assert(cur@.text =~= seq![c.code]);
                assert(cur@ == single(c));
            }
        }
        i += 1;
    }
    let ghost prev = out@.map_values(|run: Run| run@);
    out.push(cur);
    proof {
        assert(cells@.take(n as int) =~= cells@);
        assert(out@.map_values(|run: Run| run@) =~= prev.push(cur@));
    }
    out
}

/// The texts of `runs`, one after another.
pub open spec fn flatten(runs: Seq<RunView>) -> Seq<u16>
    decreases runs.len(),
{
    if runs.len() == 0 {
        Seq::empty()
    } else {
        flatten(runs.drop_last()) + runs.last().text
    }
}

/// Batching loses, adds and reorders nothing: the runs' texts, one after
/// another, are the cells' characters in drawing order; every run holds
/// between one and [`RUN_CAPACITY`] cells.
pub proof fn lemma_batch_keeps_text(cells: Seq<ConsoleCell>)
    ensures
        flatten(batch(cells)) == cells.map_values(|c: ConsoleCell| c.code),
        forall|k: int| 0 <= k < batch(cells).len() ==> 1 <= (#[trigger] batch(cells)[k]).text.len() <= RUN_CAPACITY,
    decreases cells.len(),
{
    if cells.len() > 0 {
        let init = cells.drop_last();
        lemma_batch_keeps_text(init);
        lemma_batch_nonempty(init);
        let prev = batch(init);
        let c = cells.last();
        assert(cells.map_values(|c: ConsoleCell| c.code) =~= init.map_values(|c: ConsoleCell| c.code).push(c.code));
        if prev.len() > 0 && continues(prev.last(), c) {
            let r = prev.last();
            let b = prev.update(prev.len() - 1, RunView { text: r.text.push(c.code), ..r });
            assert(b.drop_last() =~= prev.drop_last());
            assert(flatten(prev) == flatten(prev.drop_last()) + r.text);
            assert(flatten(b) =~= flatten(prev) + seq![c.code]);
        } else {
            let b = prev.push(single(c));
            assert(b.drop_last() =~= prev);
            assert(flatten(b) =~= flatten(prev) + seq![c.code]);
        }
    } else {
        assert(cells.map_values(|c: ConsoleCell| c.code) =~= Seq::<u16>::empty());
    }
}

} // verus!
