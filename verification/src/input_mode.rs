//! The layout modes of the text input (single line, multi-line, auto-growing) and its
//! blinking cursor.
use vstd::prelude::*;

verus! {

/// Indentation settings of a multi-line input.
#[derive(Clone, Copy, Debug, PartialEq, Eq, Structural)]
pub struct TabSize {
    pub tab_size: usize,
    pub hard_tabs: bool,
}

impl Default for TabSize {
    fn default() -> (r: Self)
        ensures
            r.tab_size == 2,
            !r.hard_tabs,
    {
        Self { tab_size: 2, hard_tabs: false }
    }
}

/// The text one indentation level inserts: a tab character, or `tab_size` spaces.
pub open spec fn indent_text(t: TabSize) -> Seq<char> {
    if t.hard_tabs {
        seq!['\t']
    } else {
        Seq::new(t.tab_size as nat, |i: int| ' ')
    }
}

impl TabSize {
    pub fn new(tab_size: usize, hard_tabs: bool) -> (r: Self)
        ensures
            r.tab_size == tab_size,
            r.hard_tabs == hard_tabs,
    {
        Self { tab_size, hard_tabs }
    }

    /// The text one indentation level inserts.
    pub fn to_string(&self) -> (r: String)
        ensures
            r@ == indent_text(*self),
    {
        if self.hard_tabs {
            let mut s = String::new();
            crate::text::push_char(&mut s, '\t');
            assert(s@ =~= seq!['\t']);
            s
        } else {
            let mut s = String::new();
            let n = self.tab_size;
            let mut i: usize = 0;
            while i < n
                invariant
                    i <= n,
                    s@ =~= Seq::new(i as nat, |k: int| ' '),
                decreases n - i,
            {
                crate::text::push_char(&mut s, ' ');
                i = i + 1;
            }
            s
        }
    }
}

/// How the input lays out its text.
#[derive(Clone)]
pub enum InputMode {
    SingleLine,
    MultiLine { tab: TabSize, rows: usize },
    AutoGrow { rows: usize, min_rows: usize, max_rows: usize },
}

impl Default for InputMode {
    fn default() -> (r: Self)
        ensures
            r is SingleLine,
    {
        InputMode::SingleLine
    }
}

/// `v` clamped to `[lo, hi]` (`Ord::clamp`, for `lo <= hi`).
pub open spec fn clamped(v: usize, lo: usize, hi: usize) -> usize {
    if v < lo {
        lo
    } else if v > hi {
        hi
    } else {
        v
    }
}

/// An auto-growing mode keeps its bounds in order and its rows between them.
pub open spec fn rows_within_bounds(m: InputMode) -> bool {
    match m {
        InputMode::AutoGrow { rows, min_rows, max_rows } => min_rows <= rows <= max_rows,
        _ => true,
    }
}

impl InputMode {
    #[inline]
    pub fn is_single_line(&self) -> (r: bool)
        ensures
            r == (*self is SingleLine),
    {
        matches!(self, InputMode::SingleLine)
    }

    #[inline]
    pub fn is_auto_grow(&self) -> (r: bool)
        ensures
            r == (*self is AutoGrow),
    {
        matches!(self, InputMode::AutoGrow { .. })
    }

    #[inline]
    pub fn is_multi_line(&self) -> (r: bool)
        ensures
            r == (*self is MultiLine || *self is AutoGrow),
    {
        matches!(self, InputMode::MultiLine { .. } | InputMode::AutoGrow { .. })
    }

    /// Sets the number of visible rows: as given for a multi-line input, clamped to the
    /// bounds for an auto-growing one; a single-line input is left alone.
    pub fn set_rows(&mut self, new_rows: usize)
        requires
            *old(self) matches InputMode::AutoGrow { min_rows, max_rows, .. } ==> min_rows
                <= max_rows,
        ensures
            match *old(self) {
                InputMode::MultiLine { tab, rows } => *final(self) == InputMode::MultiLine {
                    tab,
                    rows: new_rows,
                },
                InputMode::AutoGrow { rows, min_rows, max_rows } => *final(self)
                    == InputMode::AutoGrow {
                    rows: clamped(new_rows, min_rows, max_rows),
                    min_rows,
                    max_rows,
                },
                InputMode::SingleLine => *final(self) == InputMode::SingleLine,
            },
    {
        match self {
            InputMode::MultiLine { rows, .. } => {
                *rows = new_rows;
            },
            InputMode::AutoGrow { rows, min_rows, max_rows } => {
                let lo = *min_rows;
                let hi = *max_rows;
                *rows = if new_rows < lo {
                    lo
                } else if new_rows > hi {
                    hi
                } else {
                    new_rows
                };
            },
            _ => {},
        }
    }

    /// The number of visible rows, at least 1.
    pub fn rows(&self) -> (r: usize)
        ensures
            r == match *self {
                InputMode::MultiLine { rows, .. } => if rows > 1 {
                    rows
                } else {
                    1
                },
                InputMode::AutoGrow { rows, .. } => if rows > 1 {
                    rows
                } else {
                    1
                },
                InputMode::SingleLine => 1,
            },
            r >= 1,
    {
        let r = match self {
            InputMode::MultiLine { rows, .. } => *rows,
            InputMode::AutoGrow { rows, .. } => *rows,
            _ => 1,
        };
        if r > 1 {
            r
        } else {
            1
        }
    }

    /// The least number of rows, at least 1.
    pub fn min_rows(&self) -> (r: usize)
        ensures
            r == match *self {
                InputMode::AutoGrow { min_rows, .. } => if min_rows > 1 {
                    min_rows
                } else {
                    1
                },
                _ => 1,
            },
            r >= 1,
    {
        let r = match self {
            InputMode::MultiLine { .. } => 1,
            InputMode::AutoGrow { min_rows, .. } => *min_rows,
            _ => 1,
        };
        if r > 1 {
            r
        } else {
            1
        }
    }

    /// The greatest number of rows: unbounded (`usize::MAX`) for a multi-line input.
    pub fn max_rows(&self) -> (r: usize)
        ensures
            r == match *self {
                InputMode::MultiLine { .. } => usize::MAX,
                InputMode::AutoGrow { max_rows, .. } => max_rows,
                InputMode::SingleLine => 1,
            },
    {
        match self {
            InputMode::MultiLine { .. } => usize::MAX,
            InputMode::AutoGrow { max_rows, .. } => *max_rows,
            _ => 1,
        }
    }
}

/// Setting the rows of an auto-growing input with ordered bounds keeps its rows within
/// them, and the rows it then reports lie between the least and the greatest rows.
pub proof fn lemma_set_rows_within_bounds(m: InputMode, m2: InputMode, new_rows: usize)
    requires
        m matches InputMode::AutoGrow { min_rows, max_rows, .. } && min_rows <= max_rows,
        m2 == (match m {
            InputMode::AutoGrow { rows, min_rows, max_rows } => InputMode::AutoGrow {
                rows: clamped(new_rows, min_rows, max_rows),
                min_rows,
                max_rows,
            },
            _ => m,
        }),
    ensures
        rows_within_bounds(m2),
{
}

/// Simplified cursor for the text input.
pub struct BlinkCursor {
    visible: bool,
}

impl BlinkCursor {
    pub fn new() -> (r: Self)
        ensures
            r.is_visible(),
    {
        Self { visible: true }
    }

    /// Whether the cursor is shown.
    pub closed spec fn is_visible(&self) -> bool {
        self.visible
    }

    pub fn visible(&self) -> (r: bool)
        ensures
            r == self.is_visible(),
    {
        self.visible
    }

    /// Pausing shows the cursor.
    pub fn pause(&mut self)
        ensures
            final(self).is_visible(),
    {
        self.visible = true;
    }

    /// Starting shows the cursor.
    pub fn start(&mut self)
        ensures
            final(self).is_visible(),
    {
        self.visible = true;
    }
}

} // verus!
