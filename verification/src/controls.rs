//! State of the small controls: the export format switch, checkboxes and drop-down
//! selections. Each operation returns what the view must announce (an event, a redraw);
//! announcing it is the caller's part.
use vstd::prelude::*;

verus! {

/// What a clip is exported as.
#[derive(Debug, Clone, Copy, PartialEq, Eq, Structural)]
pub enum ExportFormat {
    Video,
    Gif,
    Audio,
}

impl ExportFormat {
    /// The next format in the cycle video, GIF, audio.
    pub open spec fn next_spec(self) -> ExportFormat {
        match self {
            ExportFormat::Video => ExportFormat::Gif,
            ExportFormat::Gif => ExportFormat::Audio,
            ExportFormat::Audio => ExportFormat::Video,
        }
    }

    /// The next format in the cycle video, GIF, audio.
    pub fn next(&self) -> (r: Self)
        ensures
            r == self.next_spec(),
    {
        match self {
            ExportFormat::Video => ExportFormat::Gif,
            ExportFormat::Gif => ExportFormat::Audio,
            ExportFormat::Audio => ExportFormat::Video,
        }
    }

    /// The format's name.
    pub fn as_str(&self) -> (r: &'static str)
        ensures
            r@ == match *self {
                ExportFormat::Video => "video"@,
                ExportFormat::Gif => "gif"@,
                ExportFormat::Audio => "audio"@,
            },
    {
        match self {
            ExportFormat::Video => "video",
            ExportFormat::Gif => "gif",
            ExportFormat::Audio => "audio",
        }
    }

    /// The suffix of the exported file's name.
    pub fn file_extension(&self) -> (r: &'static str)
        ensures
            r@ == match *self {
                ExportFormat::Video => "_clip.mp4"@,
                ExportFormat::Gif => "_clip.gif"@,
                ExportFormat::Audio => "_clip.mp3"@,
            },
    {
        match self {
            ExportFormat::Video => "_clip.mp4",
            ExportFormat::Gif => "_clip.gif",
            ExportFormat::Audio => "_clip.mp3",
        }
    }
}

/// Switching the export format three times comes back to where it started, passing
/// through every format.
pub proof fn lemma_export_format_cycle(f: ExportFormat)
    ensures
        f.next_spec().next_spec().next_spec() == f,
        f.next_spec() != f,
        f.next_spec().next_spec() != f,
{
}

/// Events of a checkbox.
#[derive(Clone, Copy, Debug, PartialEq, Eq, Structural)]
pub enum CheckboxEvent {
    /// Fired when the checkbox state changes
    Change(bool),
}

/// State of a checkbox.
pub struct CheckboxState {
    checked: bool,
}

impl CheckboxState {
    /// Whether the box is checked.
    pub closed spec fn checked_spec(&self) -> bool {
        self.checked
    }

    /// Create a new CheckboxState.
    pub fn new(checked: bool) -> (r: Self)
        ensures
            r.checked_spec() == checked,
    {
        Self { checked }
    }

    /// Sets the checked state; a change is announced with its new value (and a redraw).
    pub fn set_checked(&mut self, checked: bool) -> (r: Option<CheckboxEvent>)
        ensures
            final(self).checked_spec() == checked,
            r == if checked != old(self).checked_spec() {
                Some(CheckboxEvent::Change(checked))
            } else {
                None
            },
    {
        if checked != self.checked {
            self.checked = checked;
            Some(CheckboxEvent::Change(checked))
        } else {
            None
        }
    }

    /// Get the checked state.
    pub fn is_checked(&self) -> (r: bool)
        ensures
            r == self.checked_spec(),
    {
        self.checked
    }

    /// Toggles the checked state, which is always a change.
    pub fn toggle(&mut self) -> (r: Option<CheckboxEvent>)
        ensures
            final(self).checked_spec() == !old(self).checked_spec(),
            r == Some(CheckboxEvent::Change(!old(self).checked_spec())),
    {
        let c = !self.checked;
        self.set_checked(c)
    }
}

/// Items that can be listed in a drop-down selection.
pub trait SelectItem: Sized {
    /// Get the display title for this item
    fn display_title(&self) -> String;
}

impl SelectItem for String {
    /// A string is listed as itself.
    fn display_title(&self) -> (r: String)
        ensures
            r@ == self@,
    {
        self.clone()
    }
}

/// Events of a drop-down selection.
#[derive(Clone, Copy, Debug, PartialEq, Eq, Structural)]
pub enum SelectEvent {
    /// Fired when an item is selected
    Change(usize),
}

/// State of a drop-down selection.
pub struct SelectState<T: SelectItem> {
    items: Vec<T>,
    selected_index: Option<usize>,
    is_open: bool,
}

impl<T: SelectItem> SelectState<T> {
    /// The listed items.
    pub closed spec fn items_spec(&self) -> Seq<T> {
        self.items@
    }

    /// The selected position, if any.
    pub closed spec fn selected_spec(&self) -> Option<usize> {
        self.selected_index
    }

    /// Whether the list is open.
    pub closed spec fn open_spec(&self) -> bool {
        self.is_open
    }

    /// Create a new SelectState with the given items, nothing selected, closed.
    pub fn new(items: Vec<T>) -> (r: Self)
        ensures
            r.items_spec() == items@,
            r.selected_spec() is None,
            !r.open_spec(),
    {
        Self { items, selected_index: None, is_open: false }
    }

    /// Sets the selected index. A change is redrawn (`true`) and, when something is now
    /// selected, announced.
    pub fn set_selected_index(&mut self, index: Option<usize>) -> (r: (bool, Option<SelectEvent>))
        ensures
            final(self).selected_spec() == index,
            final(self).items_spec() == old(self).items_spec(),
            final(self).open_spec() == old(self).open_spec(),
            r.0 == (index != old(self).selected_spec()),
            r.1 == if index != old(self).selected_spec() {
                match index {
                    Some(i) => Some(SelectEvent::Change(i)),
                    None => None,
                }
            } else {
                None
            },
    {
        if index != self.selected_index {
            self.selected_index = index;
            match index {
                Some(idx) => (true, Some(SelectEvent::Change(idx))),
                None => (true, None),
            }
        } else {
            (false, None)
        }
    }

    /// Get the selected index.
    pub fn selected_index(&self) -> (r: Option<usize>)
        ensures
            r == self.selected_spec(),
    {
        self.selected_index
    }

    /// The selected item, if the selection lies within the items.
    pub fn selected_item(&self) -> (r: Option<&T>)
        ensures
            r == match self.selected_spec() {
                Some(i) => if i < self.items_spec().len() {
                    Some(&self.items_spec()[i as int])
                } else {
                    None
                },
                None => None,
            },
    {
        match self.selected_index {
            Some(idx) => if idx < self.items.len() {
                Some(&self.items[idx])
            } else {
                None
            },
            None => None,
        }
    }

    /// Replaces the items; a selection beyond the new items is dropped.
    pub fn set_items(&mut self, items: Vec<T>)
        ensures
            final(self).items_spec() == items@,
            final(self).selected_spec() == match old(self).selected_spec() {
                Some(i) => if i >= items@.len() {
                    None
                } else {
                    Some(i)
                },
                None => None,
            },
            final(self).open_spec() == old(self).open_spec(),
    {
        self.items = items;
        if let Some(idx) = self.selected_index {
            if idx >= self.items.len() {
                self.selected_index = None;
            }
        }
    }

    /// Get all items.
    pub fn items(&self) -> (r: &[T])
        ensures
            r@ == self.items_spec(),
    {
        self.items.as_slice()
    }

    /// Opens a closed list, closes an open one.
    pub fn toggle_open(&mut self)
        ensures
            final(self).open_spec() == !old(self).open_spec(),
            final(self).items_spec() == old(self).items_spec(),
            final(self).selected_spec() == old(self).selected_spec(),
    {
        self.is_open = !self.is_open;
    }

    /// Closes the list; `true` when it was open (and must be redrawn).
    pub fn close(&mut self) -> (r: bool)
        ensures
            !final(self).open_spec(),
            r == old(self).open_spec(),
            final(self).items_spec() == old(self).items_spec(),
            final(self).selected_spec() == old(self).selected_spec(),
    {
        if self.is_open {
            self.is_open = false;
            true
        } else {
            false
        }
    }

    /// Selects the item at `index` and closes the list; returns the selection's redraw and
    /// event and whether closing redraws.
    pub fn select_item(&mut self, index: usize) -> (r: ((bool, Option<SelectEvent>), bool))
        ensures
            final(self).selected_spec() == Some(index),
            !final(self).open_spec(),
            final(self).items_spec() == old(self).items_spec(),
            r.0.0 == (Some(index) != old(self).selected_spec()),
            r.0.1 == if Some(index) != old(self).selected_spec() {
                Some(SelectEvent::Change(index))
            } else {
                None
            },
            r.1 == old(self).open_spec(),
    {
        let a = self.set_selected_index(Some(index));
        let b = self.close();
        (a, b)
    }
}

} // verus!
