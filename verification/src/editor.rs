//! The map editor's selection state: which level and which block are chosen, and which
//! cell of the editing grid the cursor is over.
//!
//! The editing grid is coarser than the tile grid: a cell covers two tiles by two.

use vstd::prelude::*;
use crate::geometry::Transform;

verus! {

/// Side of an editing cell in world units.
pub const CELL_SIZE: i32 = 48;

/// Distance from the centre of the editing area to each of its edges.
pub const AREA_HALF: i32 = 312;

/// Number of editing cells along each side of the area.
pub const AREA_CELLS: usize = 13;

/// Number of blocks on the palette.
pub const PALETTE_BLOCKS: usize = 9;

/// Number of columns of the palette.
pub const PALETTE_COLUMNS: usize = 2;

/// What is selected in the editor.
#[derive(Clone, Copy, Debug, PartialEq, Eq)]
pub struct UISelectInfo {
    /// Index of the level that is being edited.
    pub map_editor_level_index: usize,
    /// Index of the block that the brush paints.
    pub map_editor_block: usize,
    /// Row and column of the editing cell under the cursor.
    pub map_editor_cursor: (usize, usize),
    /// Whether the cursor is over the editing area.
    pub show_line: bool,
}

/// The four lines that frame the editing cell under the cursor. Each runs across the
/// whole editing area.
#[derive(Clone, Copy, Debug, PartialEq, Eq, Structural)]
pub struct BrushLines {
    /// Horizontal position of the left edge of the cell.
    pub x_start: i32,
    /// Horizontal position of the right edge of the cell.
    pub x_end: i32,
    /// Vertical position of the top edge of the cell.
    pub y_start: i32,
    /// Vertical position of the bottom edge of the cell.
    pub y_end: i32,
}

/// One block of the palette.
#[derive(Clone, Copy, Debug, PartialEq, Eq, Structural)]
pub struct BlockSlot {
    pub row: usize,
    pub col: usize,
    /// Index of the block.
    pub index: usize,
    /// Whether this is the block that the brush paints.
    pub selected: bool,
}

/// What the editor's side panel shows.
#[derive(Clone, Debug)]
pub struct EditorPanel {
    /// For each level, whether it is the one being edited.
    pub levels: Vec<bool>,
    /// The blocks of the palette, row by row.
    pub blocks: Vec<BlockSlot>,
}

/// The cursor position lies strictly inside the editing area.
pub open spec fn over_area(p: Transform) -> bool {
    -AREA_HALF < p.x < AREA_HALF && -AREA_HALF < p.y < AREA_HALF
}

/// The editing cell that contains a position inside the area: rows count downwards from
/// the top edge, columns rightwards from the left edge.
pub open spec fn cell_of(p: Transform) -> (usize, usize) {
    (((AREA_HALF - p.y) / (CELL_SIZE as int)) as usize, ((p.x + AREA_HALF) / (
    CELL_SIZE as int)) as usize)
}

/// The selection after one cursor move.
pub open spec fn moved_cursor(s: UISelectInfo, p: Transform) -> UISelectInfo {
    if over_area(p) {
        UISelectInfo {
            map_editor_level_index: s.map_editor_level_index,
            map_editor_block: s.map_editor_block,
            map_editor_cursor: cell_of(p),
            show_line: true,
        }
    } else {
        UISelectInfo {
            map_editor_level_index: s.map_editor_level_index,
            map_editor_block: s.map_editor_block,
            map_editor_cursor: s.map_editor_cursor,
            show_line: false,
        }
    }
}

/// The selection after a sequence of cursor moves.
pub open spec fn moved_cursors(s: UISelectInfo, moves: Seq<Transform>) -> UISelectInfo
    decreases moves.len(),
{
    if moves.len() == 0 {
        s
    } else {
        moved_cursor(moved_cursors(s, moves.drop_last()), moves.last())
    }
}

/// The lines that frame the cell at `cursor`.
pub open spec fn lines_of(cursor: (usize, usize)) -> BrushLines {
    BrushLines {
        x_start: (cursor.1 * CELL_SIZE - AREA_HALF) as i32,
        x_end: (cursor.1 * CELL_SIZE - AREA_HALF + CELL_SIZE) as i32,
        y_start: (AREA_HALF - cursor.0 * CELL_SIZE) as i32,
        y_end: (AREA_HALF - cursor.0 * CELL_SIZE - CELL_SIZE) as i32,
    }
}

/// The level index after the presses of one frame: the last pressed row, if any.
pub open spec fn pressed_level(level: usize, pressed: Seq<usize>) -> usize {
    if pressed.len() == 0 {
        level
    } else {
        pressed.last()
    }
}

/// The palette slot of the block with index `i`.
pub open spec fn slot_of(i: int, selected: usize) -> BlockSlot {
    BlockSlot {
        row: (i / (PALETTE_COLUMNS as int)) as usize,
        col: (i % (PALETTE_COLUMNS as int)) as usize,
        index: i as usize,
        selected: i == selected,
    }
}

impl UISelectInfo {
    /// The cursor cell lies on the editing grid.
    pub open spec fn wf(self) -> bool {
        self.map_editor_cursor.0 < AREA_CELLS && self.map_editor_cursor.1 < AREA_CELLS
    }

    /// Nothing chosen yet: the first level, the first block, the cursor off the area.
    pub fn new() -> (s: UISelectInfo)
        ensures
            s.wf(),
            s.map_editor_level_index == 0,
            s.map_editor_block == 0,
            s.map_editor_cursor == (0usize, 0usize),
            !s.show_line,
    {
        UISelectInfo {
            map_editor_level_index: 0,
            map_editor_block: 0,
            map_editor_cursor: (0, 0),
            show_line: false,
        }
    }

    /// Run-time test of [`UISelectInfo::wf`].
    pub fn is_wf(&self) -> (b: bool)
        ensures
            b == self.wf(),
    {
        self.map_editor_cursor.0 < AREA_CELLS && self.map_editor_cursor.1 < AREA_CELLS
    }
}

/// Lays out the editor's side panel: one entry per level, the level being edited marked,
/// and the blocks of the palette in rows of two, the selected block marked.
pub fn setup_ui_editor(level_count: usize, selector: &UISelectInfo) -> (panel: EditorPanel)
    ensures
        panel.levels@.len() == level_count,
        forall|r: int|
            0 <= r < level_count ==> #[trigger] panel.levels@[r] == (r
                == selector.map_editor_level_index),
        panel.blocks@.len() == PALETTE_BLOCKS,
        forall|i: int|
            0 <= i < PALETTE_BLOCKS ==> #[trigger] panel.blocks@[i] == slot_of(
                i,
                selector.map_editor_block,
            ),
{
    let mut levels: Vec<bool> = Vec::new();
    let mut r: usize = 0;
    while r < level_count
        invariant
            r <= level_count,
            levels@.len() == r,
            forall|k: int| 0 <= k < r ==> #[trigger] levels@[k] == (k == selector.map_editor_level_index),
        decreases level_count - r,
    {
        levels.push(r == selector.map_editor_level_index);
        r += 1;
    }
    let mut blocks: Vec<BlockSlot> = Vec::new();
    let mut i: usize = 0;
    while i < PALETTE_BLOCKS
        invariant
            i <= PALETTE_BLOCKS,
            blocks@.len() == i,
            forall|k: int| 0 <= k < i ==> #[trigger] blocks@[k] == slot_of(k, selector.map_editor_block),
        decreases PALETTE_BLOCKS - i,
    {
        blocks.push(
            BlockSlot {
                row: i / PALETTE_COLUMNS,
                col: i % PALETTE_COLUMNS,
                index: i,
                selected: i == selector.map_editor_block,
            },
        );
        i += 1;
    }
    EditorPanel { levels, blocks }
}

/// Applies the presses of one frame to the level selection and says, for each of the
/// `level_count` entries, whether it is to be shown as the selected one.
pub fn update_ui_editor(selector: &mut UISelectInfo, pressed: &Vec<usize>, level_count: usize) -> (marks: Vec<bool>)
    ensures
        final(selector).map_editor_level_index == pressed_level(
            old(selector).map_editor_level_index,
            pressed@,
        ),
        final(selector).map_editor_block == old(selector).map_editor_block,
        final(selector).map_editor_cursor == old(selector).map_editor_cursor,
        final(selector).show_line == old(selector).show_line,
        marks@.len() == level_count,
        forall|i: int|
            0 <= i < level_count ==> #[trigger] marks@[i] == (i
                == final(selector).map_editor_level_index),
{
    let n: usize = pressed.len();
    if n > 0 {
        selector.map_editor_level_index = pressed[n - 1];
    }
    let mut marks: Vec<bool> = Vec::new();
    let mut i: usize = 0;
    while i < level_count
        invariant
            i <= level_count,
            marks@.len() == i,
            forall|k: int| 0 <= k < i ==> #[trigger] marks@[k] == (k == selector.map_editor_level_index),
        decreases level_count - i,
    {
        marks.push(i == selector.map_editor_level_index);
        i += 1;
    }
    marks
}

/// Follows the cursor over the editing area and frames the cell under it.
///
/// Each move inside the area puts the cursor on the cell that contains it; each move
/// outside takes the cursor off the area. The result frames the cursor's cell while the
/// cursor is over the area.
pub fn update_ui_editor_brush(selector: &mut UISelectInfo, moves: &Vec<Transform>) -> (lines: Option<BrushLines>)
    requires
        old(selector).wf(),
    ensures
        *final(selector) == moved_cursors(*old(selector), moves@),
        final(selector).wf(),
        lines == (if final(selector).show_line {
            Some(lines_of(final(selector).map_editor_cursor))
        } else {
            None
        }),
{
    let mut i: usize = 0;
    proof {
        assert(moves@.take(0) == Seq::<Transform>::empty());
    }
    while i < moves.len()
        invariant
            i <= moves.len(),
            selector.wf(),
            *selector == moved_cursors(*old(selector), moves@.take(i as int)),
        decreases moves.len() - i,
    {
        let p = moves[i];
        proof {
            assert(moves@.take(i + 1).drop_last() == moves@.take(i as int));
        }
        if -AREA_HALF < p.x && p.x < AREA_HALF && -AREA_HALF < p.y && p.y < AREA_HALF {
            selector.map_editor_cursor = (
                ((AREA_HALF - p.y) / CELL_SIZE) as usize,
                ((p.x + AREA_HALF) / CELL_SIZE) as usize,
            );
            selector.show_line = true;
        } else {
            selector.show_line = false;
        }
        i += 1;
    }
    proof {
        assert(moves@.take(moves.len() as int) == moves@);
    }
    if selector.show_line {
        let row: i32 = selector.map_editor_cursor.0 as i32;
        let col: i32 = selector.map_editor_cursor.1 as i32;
        Some(
            BrushLines {
                x_start: col * CELL_SIZE - AREA_HALF,
                x_end: col * CELL_SIZE - AREA_HALF + CELL_SIZE,
                y_start: AREA_HALF - row * CELL_SIZE,
                y_end: AREA_HALF - row * CELL_SIZE - CELL_SIZE,
            },
        )
    } else {
        None
    }
}

} // verus!
