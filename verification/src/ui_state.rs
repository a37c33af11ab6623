//! Selection and scrolling state of the result list.

use vstd::prelude::*;

verus! {

/// The cursor over the result table: the selected row, the scroll
/// offset, and the last known terminal height.
#[derive(Default)]
pub struct UIState {
    pub selected_index: Option<usize>,
    pub scroll_offset: usize,
    pub last_rows: usize,
}

impl UIState {
    /// Sets the selected row outright.
    pub fn set_selected_index(&mut self, index: Option<usize>)
        ensures
            final(self).selected_index == index,
            final(self).scroll_offset == old(self).scroll_offset,
            final(self).last_rows == old(self).last_rows,
    {
        self.selected_index = index;
    }

    /// Moves the selection one row down: from nothing to the first row,
    /// off the end back to nothing.  An empty table changes nothing.
    pub fn move_selection_down(&mut self, table_count: usize)
        ensures
            final(self).scroll_offset == old(self).scroll_offset,
            final(self).last_rows == old(self).last_rows,
            table_count == 0 ==> final(self).selected_index == old(self).selected_index,
            table_count > 0 ==> final(self).selected_index == (match old(self).selected_index {
                None => Some(0usize),
                Some(current) => if current + 1 < table_count {
                    Some((current + 1) as usize)
                } else {
                    None
                },
            }),
    {
        if table_count == 0 {
            return ;
        }
        match self.selected_index {
            None => {
                self.selected_index = Some(0);
            },
            Some(current) => {
                if current < table_count && current + 1 < table_count {
                    self.selected_index = Some(current + 1);
                } else if current >= table_count {
                    self.selected_index = None;
                } else {
                    self.selected_index = None;
                }
            },
        }
    }

    /// Moves the selection one row up: from nothing to the last row,
    /// off the top back to nothing.  An empty table changes nothing.
    pub fn move_selection_up(&mut self, table_count: usize)
        ensures
            final(self).scroll_offset == old(self).scroll_offset,
            final(self).last_rows == old(self).last_rows,
            table_count == 0 ==> final(self).selected_index == old(self).selected_index,
            table_count > 0 ==> final(self).selected_index == (match old(self).selected_index {
                None => Some((table_count - 1) as usize),
                Some(current) => if current > 0 {
                    Some((current - 1) as usize)
                } else {
                    None
                },
            }),
    {
        if table_count == 0 {
            return ;
        }
        match self.selected_index {
            None => {
                self.selected_index = Some(table_count - 1);
            },
            Some(current) => {
                if current > 0 {
                    self.selected_index = Some(current - 1);
                } else {
                    self.selected_index = None;
                }
            },
        }
    }

    /// Clamps the selection after the table shrank: a selection past the
    /// end moves to the last row, or away entirely when nothing is left.
    pub fn adjust_selection_after_update(&mut self, table_count: usize)
        ensures
            final(self).scroll_offset == old(self).scroll_offset,
            final(self).last_rows == old(self).last_rows,
            final(self).selected_index == (match old(self).selected_index {
                Some(selected) => if selected >= table_count {
                    if table_count == 0 {
                        None
                    } else {
                        Some((table_count - 1) as usize)
                    }
                } else {
                    Some(selected)
                },
                None => None::<usize>,
            }),
    {
        if let Some(selected) = self.selected_index {
            if selected >= table_count {
                self.selected_index = if table_count == 0 {
                    None
                } else {
                    Some(table_count - 1)
                };
            }
        }
    }

    /// Scrolls so the selection sits near the middle of the visible
    /// window, never past the end of the table; without a selection the
    /// offset is only clamped.
    pub fn adjust_scroll_for_selection(&mut self, visible_items: usize, table_count: usize)
        ensures
            final(self).selected_index == old(self).selected_index,
            final(self).last_rows == old(self).last_rows,
            final(self).scroll_offset == (match old(self).selected_index {
                Some(selected) => {
                    let center = visible_items as int / 2;
                    let ideal = if selected >= center {
                        selected - center
                    } else {
                        0
                    };
                    let max_scroll = if table_count >= visible_items {
                        table_count - visible_items
                    } else {
                        0
                    };
                    if ideal <= max_scroll {
                        ideal
                    } else {
                        max_scroll
                    }
                },
                None => {
                    let max_scroll = if table_count >= visible_items {
                        table_count - visible_items
                    } else {
                        0
                    };
                    if old(self).scroll_offset > max_scroll {
                        max_scroll
                    } else {
                        old(self).scroll_offset as int
                    }
                },
            }),
    {
        let max_scroll = if table_count >= visible_items {
            table_count - visible_items
        } else {
            0
        };
        if let Some(selected) = self.selected_index {
            let center_position = visible_items / 2;
            let ideal_scroll_offset = if selected >= center_position {
                selected - center_position
            } else {
                0
            };
            self.scroll_offset = if ideal_scroll_offset <= max_scroll {
                ideal_scroll_offset
            } else {
                max_scroll
            };
        } else {
            if self.scroll_offset > max_scroll {
                self.scroll_offset = max_scroll;
            }
        }
    }

    /// The selected row, if any.
    pub fn get_selected_index(&self) -> (r: Option<usize>)
        ensures
            r == self.selected_index,
    {
        self.selected_index
    }

    /// Records the terminal height of the last render.
    pub fn update_last_rows(&mut self, rows: usize)
        ensures
            final(self).last_rows == rows,
            final(self).selected_index == old(self).selected_index,
            final(self).scroll_offset == old(self).scroll_offset,
    {
        self.last_rows = rows;
    }
}

} // verus!
