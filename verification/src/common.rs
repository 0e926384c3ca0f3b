//! Sizes shared by the window and the drawing of boxes.
use vstd::prelude::*;

verus! {

pub const WINDOW_WIDTH: u32 = 800;

pub const WINDOW_HEIGHT: u32 = 600;

pub const TRIANGLES_PER_BOX: u32 = 12;

pub const LINES_PER_BOX: u32 = 12;

pub const VERTICES_PER_TRIANGLE: u32 = 3;

pub const VERTICES_PER_LINE: u32 = 2;

pub const TRIANGLE_VERTICES_PER_BOX: u32 = TRIANGLES_PER_BOX * VERTICES_PER_TRIANGLE;

pub const LINE_VERTICES_PER_BOX: u32 = LINES_PER_BOX * VERTICES_PER_LINE;

} // verus!
