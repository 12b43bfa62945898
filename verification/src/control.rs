//! The render loop's decisions, separated from the terminal they act on:
//! mapping a key code to an action, reacting to a resize, draining one
//! message into the table, and re-sorting by the active key. The loop that
//! owns the terminal calls these phases in order each iteration.
use vstd::prelude::*;

use crate::layout::layout_ok;
use crate::layout::Layout;
use crate::layout::Size;
use crate::message::PublishMessage;
use crate::sort::sort_spec;
use crate::sort::SortKey;
use crate::table::counts_below_max;
use crate::table::upsert_spec;
use crate::table::EntryList;

verus! {

/// Key code for quitting: the letter q.
pub const KEY_QUIT: i32 = 0x71;

/// Key code for sorting by topic: the letter k.
pub const KEY_SORT_TOPIC: i32 = 0x6b;

/// Key code for sorting by value: the letter v.
pub const KEY_SORT_VALUE: i32 = 0x76;

/// Key code for sorting by time: the letter t.
pub const KEY_SORT_TIME: i32 = 0x74;

/// Key code for sorting by count: the letter c.
pub const KEY_SORT_COUNT: i32 = 0x63;

/// The code a curses terminal reports for a resize notification.
pub const KEY_RESIZE_CODE: i32 = 0x19a;

/// The code for "no input arrived within the poll timeout".
pub const KEY_NONE: i32 = -1;

/// What one polled key asks of the loop.
#[derive(Copy, Clone, PartialEq, Eq, Structural, Debug)]
pub enum KeyAction {
    /// Leave the loop and restore the terminal.
    Quit,
    /// Sort by this key from now on.
    SetSort(SortKey),
    /// The terminal was resized.
    Resized,
    /// Nothing was pressed within the timeout.
    NoInput,
    /// An unrecognized key; ignored beyond an optional diagnostic echo.
    Other,
}

/// The complete keyboard command mapping, case sensitive; every key not
/// listed is a no-op.
pub open spec fn spec_map_key(key: int) -> KeyAction {
    if key == KEY_QUIT as int {
        KeyAction::Quit
    } else if key == KEY_SORT_TOPIC as int {
        KeyAction::SetSort(SortKey::Topic)
    } else if key == KEY_SORT_VALUE as int {
        KeyAction::SetSort(SortKey::Value)
    } else if key == KEY_SORT_TIME as int {
        KeyAction::SetSort(SortKey::Time)
    } else if key == KEY_SORT_COUNT as int {
        KeyAction::SetSort(SortKey::Count)
    } else if key == KEY_RESIZE_CODE as int {
        KeyAction::Resized
    } else if key == KEY_NONE as int {
        KeyAction::NoInput
    } else {
        KeyAction::Other
    }
}

pub fn map_key(key: i32) -> (r: KeyAction)
    ensures
        r == spec_map_key(key as int),
{
    if key == KEY_QUIT {
        KeyAction::Quit
    } else if key == KEY_SORT_TOPIC {
        KeyAction::SetSort(SortKey::Topic)
    } else if key == KEY_SORT_VALUE {
        KeyAction::SetSort(SortKey::Value)
    } else if key == KEY_SORT_TIME {
        KeyAction::SetSort(SortKey::Time)
    } else if key == KEY_SORT_COUNT {
        KeyAction::SetSort(SortKey::Count)
    } else if key == KEY_RESIZE_CODE {
        KeyAction::Resized
    } else if key == KEY_NONE {
        KeyAction::NoInput
    } else {
        KeyAction::Other
    }
}

/// The state the render loop owns: the aggregation table, the active sort
/// key, the last seen terminal dimensions and the layout derived from them.
pub struct Dashboard {
    pub table: EntryList,
    pub sort: SortKey,
    pub size: Size,
    pub layout: Layout,
}

impl Dashboard {
    /// A fresh dashboard: empty table, sorting by topic.
    pub fn new(size: Size) -> (r: Dashboard)
        requires
            size.width <= 21_000_002,
            size.height > i32::MIN,
        ensures
            r.table@ == Seq::<crate::table::EntryView>::empty(),
            r.sort == SortKey::Topic,
            r.size == size,
            layout_ok(r.layout, size),
    {
        Dashboard { table: EntryList::new(), sort: SortKey::Topic, size, layout: Layout::new(size) }
    }

    /// Resize phase: when the dimensions changed, adopt them and recompute
    /// the layout wholesale; the caller then clears and redraws the frame.
    pub fn check_resize(&mut self, current: Size) -> (changed: bool)
        requires
            current.width <= 21_000_002,
            current.height > i32::MIN,
        ensures
            changed == (current != old(self).size),
            final(self).table == old(self).table,
            final(self).sort == old(self).sort,
            !changed ==> *final(self) == *old(self),
            changed ==> final(self).size == current && layout_ok(final(self).layout, current),
    {
        if self.size.changed(&current) {
            self.size = current;
            self.layout = Layout::new(current);
            true
        } else {
            false
        }
    }

    /// Drain phase, one message: upsert it into the table when every count
    /// still has room, and report whether it was taken. The caller redraws
    /// after each message taken.
    pub fn try_ingest(&mut self, m: &PublishMessage) -> (ok: bool)
        ensures
            ok == counts_below_max(old(self).table@),
            ok ==> final(self).table@ == upsert_spec(old(self).table@, m@),
            !ok ==> final(self).table == old(self).table,
            final(self).sort == old(self).sort,
            final(self).size == old(self).size,
            final(self).layout == old(self).layout,
    {
        let n = self.table.entries.len();
        let mut i: usize = 0;
        while i < n
            invariant
                i <= n,
                n == self.table.entries@.len(),
                *self == *old(self),
                forall|j: int| 0 <= j < i ==> (#[trigger] self.table@[j]).count < u64::MAX,
            decreases n - i,
        {
            proof {
                assert(self.table@[i as int] == self.table.entries@[i as int]@);
            }
            if self.table.entries[i].count == u64::MAX {
                return false;
            }
            i = i + 1;
        }
        self.table.add(m);
        true
    }

    /// Sort phase: stable sort of the table by the active key, ascending.
    pub fn sort_now(&mut self)
        ensures
            final(self).table@ == sort_spec(old(self).sort, old(self).table@),
            final(self).sort == old(self).sort,
            final(self).size == old(self).size,
            final(self).layout == old(self).layout,
    {
        let k = self.sort;
        self.table.sort_by_key(k);
    }

    /// Input phase: map the polled key and, when it selects a sort key,
    /// adopt that key; everything else leaves the state untouched and is
    /// the caller's to act on.
    pub fn handle_key(&mut self, key: i32) -> (act: KeyAction)
        ensures
            act == spec_map_key(key as int),
            final(self).table == old(self).table,
            final(self).size == old(self).size,
            final(self).layout == old(self).layout,
            match act {
                KeyAction::SetSort(k) => final(self).sort == k,
                _ => final(self).sort == old(self).sort,
            },
    {
        let act = map_key(key);
        match act {
            KeyAction::SetSort(k) => {
                self.sort = k;
            },
            _ => {},
        }
        act
    }
}

} // verus!
