//! Data structures for SVG analysis results.

use vstd::prelude::*;
use super::viewbox::ViewBox;
use super::size::{file_size_text, format_file_size};

verus! {

/// Summary statistics from the streaming pass.
#[derive(Debug)]
pub struct SvgSummary {
    /// File size in bytes
    pub file_size_bytes: u64,
    /// Human-readable file size (e.g., "15.20 MB")
    pub file_size_human: String,
    /// SVG viewBox if present
    pub view_box: Option<ViewBox>,
    /// SVG width attribute
    pub width: Option<String>,
    /// SVG height attribute
    pub height: Option<String>,
    /// Element counts by type
    pub element_counts: ElementCounts,
    /// Top-level groups (layers)
    pub top_level_groups: Vec<GroupInfo>,
    /// Number of elements with transform attributes
    pub transform_count: usize,
    /// Unique fill colors found
    pub fill_colors: Vec<ColorInfo>,
    /// Unique stroke colors found
    pub stroke_colors: Vec<ColorInfo>,
    /// Warnings about potential issues
    pub warnings: Vec<String>,
}

impl SvgSummary {
    /// An empty summary of a file of the given size.
    pub fn new(file_size_bytes: u64) -> (r: Self)
        ensures
            r.file_size_bytes == file_size_bytes,
            r.file_size_human@ == file_size_text(file_size_bytes as nat),
            r.view_box is None,
            r.width is None,
            r.height is None,
            r.element_counts.is_zero(),
            r.top_level_groups@.len() == 0,
            r.transform_count == 0,
            r.fill_colors@.len() == 0,
            r.stroke_colors@.len() == 0,
            r.warnings@.len() == 0,
    {
        SvgSummary {
            file_size_bytes,
            file_size_human: format_file_size(file_size_bytes),
            view_box: None,
            width: None,
            height: None,
            element_counts: ElementCounts::default(),
            top_level_groups: Vec::new(),
            transform_count: 0,
            fill_colors: Vec::new(),
            stroke_colors: Vec::new(),
            warnings: Vec::new(),
        }
    }
}

/// Element counts by type.
#[derive(Debug, Clone)]
pub struct ElementCounts {
    pub paths: usize,
    pub groups: usize,
    pub circles: usize,
    pub rects: usize,
    pub ellipses: usize,
    pub lines: usize,
    pub polylines: usize,
    pub polygons: usize,
    pub text: usize,
    pub images: usize,
    pub use_elements: usize,
    pub defs: usize,
    pub clip_paths: usize,
    pub masks: usize,
    pub gradients: usize,
    pub patterns: usize,
    pub total: usize,
}

impl ElementCounts {
    /// All counts zero.
    pub open spec fn is_zero(&self) -> bool {
        &&& self.paths == 0
        &&& self.groups == 0
        &&& self.circles == 0
        &&& self.rects == 0
        &&& self.ellipses == 0
        &&& self.lines == 0
        &&& self.polylines == 0
        &&& self.polygons == 0
        &&& self.text == 0
        &&& self.images == 0
        &&& self.use_elements == 0
        &&& self.defs == 0
        &&& self.clip_paths == 0
        &&& self.masks == 0
        &&& self.gradients == 0
        &&& self.patterns == 0
        &&& self.total == 0
    }
}

impl Default for ElementCounts {
    fn default() -> (r: Self)
        ensures
            r.is_zero(),
    {
        ElementCounts {
            paths: 0,
            groups: 0,
            circles: 0,
            rects: 0,
            ellipses: 0,
            lines: 0,
            polylines: 0,
            polygons: 0,
            text: 0,
            images: 0,
            use_elements: 0,
            defs: 0,
            clip_paths: 0,
            masks: 0,
            gradients: 0,
            patterns: 0,
            total: 0,
        }
    }
}

/// Information about a top-level group (layer).
#[derive(Debug, Clone)]
pub struct GroupInfo {
    /// Group ID if present
    pub id: Option<String>,
    /// Number of direct children
    pub child_count: usize,
    /// Whether this group has a transform
    pub has_transform: bool,
    /// Element counts within this group
    pub element_counts: GroupElementCounts,
    /// Colors used in this group (fill and stroke combined), sorted by count
    pub colors: Vec<ColorInfo>,
}

/// Element counts for a group (subset of full ElementCounts).
#[derive(Debug, Clone)]
pub struct GroupElementCounts {
    pub paths: usize,
    pub groups: usize,
    pub rects: usize,
    pub circles: usize,
    pub ellipses: usize,
    pub lines: usize,
    pub polylines: usize,
    pub polygons: usize,
    pub text: usize,
    pub images: usize,
    pub use_elements: usize,
}

impl GroupElementCounts {
    /// All counts zero.
    pub open spec fn is_zero(&self) -> bool {
        &&& self.paths == 0
        &&& self.groups == 0
        &&& self.rects == 0
        &&& self.circles == 0
        &&& self.ellipses == 0
        &&& self.lines == 0
        &&& self.polylines == 0
        &&& self.polygons == 0
        &&& self.text == 0
        &&& self.images == 0
        &&& self.use_elements == 0
    }
}

impl Default for GroupElementCounts {
    fn default() -> (r: Self)
        ensures
            r.is_zero(),
    {
        GroupElementCounts {
            paths: 0,
            groups: 0,
            rects: 0,
            circles: 0,
            ellipses: 0,
            lines: 0,
            polylines: 0,
            polygons: 0,
            text: 0,
            images: 0,
            use_elements: 0,
        }
    }
}

/// Color usage information.
#[derive(Debug, Clone)]
pub struct ColorInfo {
    /// Color value (e.g., "#FF0000", "red", "linear-gradient")
    pub color: String,
    /// Number of elements using this color
    pub count: usize,
}

/// Result of a color query.
#[derive(Debug)]
pub struct ColorResult {
    /// The queried color
    pub query_color: String,
    /// Number of elements with this color
    pub match_count: usize,
    /// Matching elements (limited)
    pub elements: Vec<ElementSummary>,
}

/// Brief summary of an element (used in query results).
#[derive(Debug, Clone)]
pub struct ElementSummary {
    /// Element type
    pub element_type: String,
    /// Element ID if present
    pub id: Option<String>,
    /// Fill color
    pub fill: Option<String>,
}

/// Tree node for hierarchical view.
#[derive(Debug)]
pub struct TreeNode {
    /// Element type or "svg"
    pub name: String,
    /// Element ID if present
    pub id: Option<String>,
    /// Total descendant count
    pub element_count: usize,
    /// Child nodes
    pub children: Vec<TreeNode>,
}

} // verus!
