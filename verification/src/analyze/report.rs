//! The human-readable analysis report.

use vstd::prelude::*;
use super::types::{ColorInfo, ColorResult, ElementCounts, ElementSummary, GroupInfo, SvgSummary};
use crate::text::{decimal, push_decimal, push_str, string_of};

verus! {

/// The title lines and the file size line.
pub open spec fn head_text(s: SvgSummary) -> Seq<char> {
    "SVG Analysis\n============\n\nFile: "@ + s.file_size_human@ + seq!['\n']
}

/// The width and height line (`width: W  height: H`, either part only
/// when present), or nothing when both are absent.
pub open spec fn dims_text(width: Option<String>, height: Option<String>) -> Seq<char> {
    match (width, height) {
        (Some(w), Some(h)) => "width: "@ + w@ + "  "@ + "height: "@ + h@ + seq!['\n'],
        (Some(w), None) => "width: "@ + w@ + seq!['\n'],
        (None, Some(h)) => "height: "@ + h@ + seq!['\n'],
        (None, None) => Seq::empty(),
    }
}

/// One element count line, shown only for a positive count.
pub open spec fn count_line(label: Seq<char>, n: usize) -> Seq<char> {
    if n > 0 {
        label + decimal(n as nat) + seq!['\n']
    } else {
        Seq::empty()
    }
}

/// The element count lines, in a fixed order.
pub open spec fn counts_text(c: ElementCounts) -> Seq<char> {
    "Elements ("@ + decimal(c.total as nat) + " total):\n"@
        + count_line("  paths: "@, c.paths)
        + count_line("  groups: "@, c.groups)
        + count_line("  circles: "@, c.circles)
        + count_line("  rects: "@, c.rects)
        + count_line("  ellipses: "@, c.ellipses)
        + count_line("  lines: "@, c.lines)
        + count_line("  polylines: "@, c.polylines)
        + count_line("  polygons: "@, c.polygons)
        + count_line("  text: "@, c.text)
        + count_line("  images: "@, c.images)
        + count_line("  use: "@, c.use_elements)
        + count_line("  defs: "@, c.defs)
        + count_line("  clipPaths: "@, c.clip_paths)
        + count_line("  masks: "@, c.masks)
        + count_line("  gradients: "@, c.gradients)
        + count_line("  patterns: "@, c.patterns)
}

/// A group's line: its id (or `<anonymous>`), ` [T]` when it has a
/// transform, and its child count.
pub open spec fn group_line(g: GroupInfo) -> Seq<char> {
    "    - "@ + match g.id {
        Some(id) => id@,
        None => "<anonymous>"@,
    } + if g.has_transform { " [T]"@ } else { Seq::empty() } + " ("@ + decimal(g.child_count as nat)
        + " children)\n"@
}

/// The lines of the first `k` groups.
pub open spec fn groups_text(gs: Seq<GroupInfo>, k: int) -> Seq<char>
    decreases k,
{
    if k <= 0 || k > gs.len() {
        Seq::empty()
    } else {
        groups_text(gs, k - 1) + group_line(gs[k - 1])
    }
}

/// The structure section: transforms and top-level groups.
pub open spec fn structure_text(s: SvgSummary) -> Seq<char> {
    "Structure:\n  transforms: "@ + decimal(s.transform_count as nat) + "\n  top-level groups: "@ + decimal(
        s.top_level_groups@.len(),
    ) + seq!['\n'] + groups_text(s.top_level_groups@, s.top_level_groups@.len() as int)
}

/// A color line: the color and how many times it was used.
pub open spec fn color_line(c: ColorInfo) -> Seq<char> {
    "  "@ + c.color@ + " ("@ + decimal(c.count as nat) + "x)\n"@
}

/// The lines of the first `k` colors.
pub open spec fn colors_text(cs: Seq<ColorInfo>, k: int) -> Seq<char>
    decreases k,
{
    if k <= 0 || k > cs.len() {
        Seq::empty()
    } else {
        colors_text(cs, k - 1) + color_line(cs[k - 1])
    }
}

/// A color section: a blank line, the title with the number of colors, at
/// most `shown` color lines and a line for the rest; nothing without colors.
pub open spec fn color_section(title: Seq<char>, cs: Seq<ColorInfo>, shown: nat) -> Seq<char> {
    if cs.len() == 0 {
        Seq::empty()
    } else {
        seq!['\n'] + title + decimal(cs.len()) + " unique):\n"@ + colors_text(
            cs,
            if cs.len() <= shown { cs.len() as int } else { shown as int },
        ) + if cs.len() > shown {
            "  ... and "@ + decimal((cs.len() - shown) as nat) + " more\n"@
        } else {
            Seq::empty()
        }
    }
}

/// The lines of the first `k` warnings.
pub open spec fn warning_lines(ws: Seq<String>, k: int) -> Seq<char>
    decreases k,
{
    if k <= 0 || k > ws.len() {
        Seq::empty()
    } else {
        warning_lines(ws, k - 1) + "  - "@ + ws[k - 1]@ + seq!['\n']
    }
}

/// The warnings section; nothing without warnings.
pub open spec fn warnings_text(ws: Seq<String>) -> Seq<char> {
    if ws.len() == 0 {
        Seq::empty()
    } else {
        "\nWarnings:\n"@ + warning_lines(ws, ws.len() as int)
    }
}

/// The report after the view box line: dimensions, element counts,
/// structure, fill colors (eight shown), stroke colors (five shown) and
/// warnings.
pub open spec fn body_text(s: SvgSummary) -> Seq<char> {
    dims_text(s.width, s.height) + seq!['\n'] + counts_text(s.element_counts) + seq!['\n']
        + structure_text(s) + color_section("Fill colors ("@, s.fill_colors@, 8)
        + color_section("Stroke colors ("@, s.stroke_colors@, 5) + warnings_text(s.warnings@)
}

/// The report's title and file size lines.
pub fn report_head(s: &SvgSummary) -> (r: String)
    ensures
        r@ == head_text(*s),
{
    let mut out: Vec<char> = Vec::new();
    push_str(&mut out, "SVG Analysis\n============\n\nFile: ");
    push_str(&mut out, s.file_size_human.as_str());
    out.push('\n');
    assert(out@ =~= head_text(*s));
    string_of(out.as_slice())
}

fn push_count_line(out: &mut Vec<char>, label: &str, n: usize)
    ensures
        final(out)@ == old(out)@ + count_line(label@, n),
{
    if n > 0 {
        push_str(out, label);
        push_decimal(out, n as u64);
        out.push('\n');
        assert(final(out)@ =~= old(out)@ + count_line(label@, n));
    } else {
        assert(final(out)@ =~= old(out)@ + count_line(label@, n));
    }
}

fn push_counts(out: &mut Vec<char>, c: &ElementCounts)
    ensures
        final(out)@ == old(out)@ + counts_text(*c),
{
    push_str(out, "Elements (");
    push_decimal(out, c.total as u64);
    push_str(out, " total):\n");
    push_count_line(out, "  paths: ", c.paths);
    push_count_line(out, "  groups: ", c.groups);
    push_count_line(out, "  circles: ", c.circles);
    push_count_line(out, "  rects: ", c.rects);
    push_count_line(out, "  ellipses: ", c.ellipses);
    push_count_line(out, "  lines: ", c.lines);
    push_count_line(out, "  polylines: ", c.polylines);
    push_count_line(out, "  polygons: ", c.polygons);
    push_count_line(out, "  text: ", c.text);
    push_count_line(out, "  images: ", c.images);
    push_count_line(out, "  use: ", c.use_elements);
    push_count_line(out, "  defs: ", c.defs);
    push_count_line(out, "  clipPaths: ", c.clip_paths);
    push_count_line(out, "  masks: ", c.masks);
    push_count_line(out, "  gradients: ", c.gradients);
    push_count_line(out, "  patterns: ", c.patterns);
    assert(final(out)@ =~= old(out)@ + counts_text(*c));
}

fn push_group_line(out: &mut Vec<char>, g: &GroupInfo)
    ensures
        final(out)@ == old(out)@ + group_line(*g),
{
    push_str(out, "    - ");
    match &g.id {
        Some(id) => push_str(out, id.as_str()),
        None => push_str(out, "<anonymous>"),
    }
    if g.has_transform {
        push_str(out, " [T]");
    }
    push_str(out, " (");
    push_decimal(out, g.child_count as u64);
    push_str(out, " children)\n");
    assert(final(out)@ =~= old(out)@ + group_line(*g));
}

fn push_colors(out: &mut Vec<char>, title: &str, cs: &Vec<ColorInfo>, shown: usize)
    ensures
        final(out)@ == old(out)@ + color_section(title@, cs@, shown as nat),
{
    if cs.len() == 0 {
        assert(final(out)@ =~= old(out)@ + color_section(title@, cs@, shown as nat));
        return;
    }
    out.push('\n');
    push_str(out, title);
    push_decimal(out, cs.len() as u64);
    push_str(out, " unique):\n");
    let ghost head = out@;
    let k = if cs.len() <= shown { cs.len() } else { shown };
    let mut i: usize = 0;
    while i < k
        invariant
            i <= k,
            k <= cs@.len(),
            out@ == head + colors_text(cs@, i as int),
        decreases k - i,
    {
        push_str(out, "  ");
        push_str(out, cs[i].color.as_str());
        push_str(out, " (");
        push_decimal(out, cs[i].count as u64);
        push_str(out, "x)\n");
        i += 1;
        assert(out@ =~= head + colors_text(cs@, i as int));
    }
    if cs.len() > shown {
        push_str(out, "  ... and ");
        push_decimal(out, (cs.len() - shown) as u64);
        push_str(out, " more\n");
    }
    assert(final(out)@ =~= old(out)@ + color_section(title@, cs@, shown as nat));
}

fn push_dims(out: &mut Vec<char>, width: &Option<String>, height: &Option<String>)
    ensures
        final(out)@ == old(out)@ + dims_text(*width, *height),
{
    match (width, height) {
        (Some(w), Some(h)) => {
            push_str(out, "width: ");
            push_str(out, w.as_str());
            push_str(out, "  ");
            push_str(out, "height: ");
            push_str(out, h.as_str());
            out.push('\n');
        },
        (Some(w), None) => {
            push_str(out, "width: ");
            push_str(out, w.as_str());
            out.push('\n');
        },
        (None, Some(h)) => {
            push_str(out, "height: ");
            push_str(out, h.as_str());
            out.push('\n');
        },
        (None, None) => {},
    }
    assert(final(out)@ =~= old(out)@ + dims_text(*width, *height));
}

fn push_structure(out: &mut Vec<char>, s: &SvgSummary)
    ensures
        final(out)@ == old(out)@ + structure_text(*s),
{
    push_str(out, "Structure:\n  transforms: ");
    push_decimal(out, s.transform_count as u64);
    push_str(out, "\n  top-level groups: ");
    push_decimal(out, s.top_level_groups.len() as u64);
    out.push('\n');
    let ghost head = out@;
    let mut i: usize = 0;
    while i < s.top_level_groups.len()
        invariant
            i <= s.top_level_groups@.len(),
            out@ == head + groups_text(s.top_level_groups@, i as int),
        decreases s.top_level_groups.len() - i,
    {
        push_group_line(out, &s.top_level_groups[i]);
        i += 1;
        assert(out@ =~= head + groups_text(s.top_level_groups@, i as int));
    }
    assert(final(out)@ =~= old(out)@ + structure_text(*s));
}

fn push_warnings(out: &mut Vec<char>, ws: &Vec<String>)
    ensures
        final(out)@ == old(out)@ + warnings_text(ws@),
{
    if ws.len() > 0 {
        push_str(out, "\nWarnings:\n");
        let ghost wh = out@;
        let mut j: usize = 0;
        while j < ws.len()
            invariant
                j <= ws@.len(),
                out@ == wh + warning_lines(ws@, j as int),
            decreases ws.len() - j,
        {
            push_str(out, "  - ");
            push_str(out, ws[j].as_str());
            out.push('\n');
            j += 1;
            assert(out@ =~= wh + warning_lines(ws@, j as int));
        }
    }
    assert(final(out)@ =~= old(out)@ + warnings_text(ws@));
}

/// The report after the view box line (see `body_text`).
pub fn report_body(s: &SvgSummary) -> (r: String)
    ensures
        r@ == body_text(*s),
{
    let mut out: Vec<char> = Vec::new();
    push_dims(&mut out, &s.width, &s.height);
    out.push('\n');
    push_counts(&mut out, &s.element_counts);
    out.push('\n');
    push_structure(&mut out, s);
    push_colors(&mut out, "Fill colors (", &s.fill_colors, 8);
    push_colors(&mut out, "Stroke colors (", &s.stroke_colors, 5);
    push_warnings(&mut out, &s.warnings);
    assert(out@ =~= body_text(*s));
    string_of(out.as_slice())
}

/// An entry line of a color query: type and ` #id` when present.
pub open spec fn color_entry_line(e: ElementSummary) -> Seq<char> {
    "  "@ + e.element_type@ + match e.id {
        Some(id) => " #"@ + id@,
        None => Seq::empty(),
    } + seq!['\n']
}

/// The entry lines of the first `k` matches.
pub open spec fn color_entries_text(es: Seq<ElementSummary>, k: int) -> Seq<char>
    decreases k,
{
    if k <= 0 || k > es.len() {
        Seq::empty()
    } else {
        color_entries_text(es, k - 1) + color_entry_line(es[k - 1])
    }
}

/// The report of a color query: the color, the number of matches and one
/// line per match.
pub open spec fn color_query_text(r: ColorResult) -> Seq<char> {
    "Color Query: "@ + r.query_color@ + "\nFound "@ + decimal(r.match_count as nat) + " elements:\n"@
        + color_entries_text(r.elements@, r.elements@.len() as int)
}

/// Renders the result of a color query (see `color_query_text`).
pub fn render_color_query(r: &ColorResult) -> (t: String)
    ensures
        t@ == color_query_text(*r),
{
    let mut out: Vec<char> = Vec::new();
    push_str(&mut out, "Color Query: ");
    push_str(&mut out, r.query_color.as_str());
    push_str(&mut out, "\nFound ");
    push_decimal(&mut out, r.match_count as u64);
    push_str(&mut out, " elements:\n");
    let ghost head = out@;
    let mut i: usize = 0;
    while i < r.elements.len()
        invariant
            i <= r.elements@.len(),
            out@ == head + color_entries_text(r.elements@, i as int),
        decreases r.elements.len() - i,
    {
        let ghost before = out@;
        push_str(&mut out, "  ");
        push_str(&mut out, r.elements[i].element_type.as_str());
        match &r.elements[i].id {
            Some(id) => {
                push_str(&mut out, " #");
                push_str(&mut out, id.as_str());
            },
            None => {},
        }
        out.push('\n');
        assert(out@ =~= before + color_entry_line(r.elements@[i as int]));
        i += 1;
        assert(out@ =~= head + color_entries_text(r.elements@, i as int));
    }
    assert(out@ =~= color_query_text(*r));
    string_of(out.as_slice())
}

/// Element counts with every per-kind count zero and the given total.
pub open spec fn no_kind_counts(t: usize) -> ElementCounts {
    ElementCounts { paths: 0, groups: 0, circles: 0, rects: 0, ellipses: 0, lines: 0, polylines: 0, polygons: 0, text: 0, images: 0, use_elements: 0, defs: 0, clip_paths: 0, masks: 0, gradients: 0, patterns: 0, total: t }
}

/// The header line of the element counts.
pub open spec fn elements_header(t: usize) -> Seq<char> {
    "Elements ("@ + decimal(t as nat) + " total):\n"@
}

/// Each count line of the report names the kind it counts: when only one
/// kind has elements, the element section is the header followed by exactly
/// one line, `  <that kind's label>: n`, and by none when n is zero.
pub proof fn count_lines_name_their_kind(t: usize, n: usize)
    ensures
        counts_text(ElementCounts { paths: n, ..no_kind_counts(t) }) == elements_header(t) + if n > 0 {
            "  paths: "@ + decimal(n as nat) + seq!['\n']
        } else {
            Seq::<char>::empty()
        },
        counts_text(ElementCounts { groups: n, ..no_kind_counts(t) }) == elements_header(t) + if n > 0 {
            "  groups: "@ + decimal(n as nat) + seq!['\n']
        } else {
            Seq::<char>::empty()
        },
        counts_text(ElementCounts { circles: n, ..no_kind_counts(t) }) == elements_header(t) + if n > 0 {
            "  circles: "@ + decimal(n as nat) + seq!['\n']
        } else {
            Seq::<char>::empty()
        },
        counts_text(ElementCounts { rects: n, ..no_kind_counts(t) }) == elements_header(t) + if n > 0 {
            "  rects: "@ + decimal(n as nat) + seq!['\n']
        } else {
            Seq::<char>::empty()
        },
        counts_text(ElementCounts { ellipses: n, ..no_kind_counts(t) }) == elements_header(t) + if n > 0 {
            "  ellipses: "@ + decimal(n as nat) + seq!['\n']
        } else {
            Seq::<char>::empty()
        },
        counts_text(ElementCounts { lines: n, ..no_kind_counts(t) }) == elements_header(t) + if n > 0 {
            "  lines: "@ + decimal(n as nat) + seq!['\n']
        } else {
            Seq::<char>::empty()
        },
        counts_text(ElementCounts { polylines: n, ..no_kind_counts(t) }) == elements_header(t) + if n > 0 {
            "  polylines: "@ + decimal(n as nat) + seq!['\n']
        } else {
            Seq::<char>::empty()
        },
        counts_text(ElementCounts { polygons: n, ..no_kind_counts(t) }) == elements_header(t) + if n > 0 {
            "  polygons: "@ + decimal(n as nat) + seq!['\n']
        } else {
            Seq::<char>::empty()
        },
        counts_text(ElementCounts { text: n, ..no_kind_counts(t) }) == elements_header(t) + if n > 0 {
            "  text: "@ + decimal(n as nat) + seq!['\n']
        } else {
            Seq::<char>::empty()
        },
        counts_text(ElementCounts { images: n, ..no_kind_counts(t) }) == elements_header(t) + if n > 0 {
            "  images: "@ + decimal(n as nat) + seq!['\n']
        } else {
            Seq::<char>::empty()
        },
        counts_text(ElementCounts { use_elements: n, ..no_kind_counts(t) }) == elements_header(t) + if n > 0 {
            "  use: "@ + decimal(n as nat) + seq!['\n']
        } else {
            Seq::<char>::empty()
        },
        counts_text(ElementCounts { defs: n, ..no_kind_counts(t) }) == elements_header(t) + if n > 0 {
            "  defs: "@ + decimal(n as nat) + seq!['\n']
        } else {
            Seq::<char>::empty()
        },
        counts_text(ElementCounts { clip_paths: n, ..no_kind_counts(t) }) == elements_header(t) + if n > 0 {
            "  clipPaths: "@ + decimal(n as nat) + seq!['\n']
        } else {
            Seq::<char>::empty()
        },
        counts_text(ElementCounts { masks: n, ..no_kind_counts(t) }) == elements_header(t) + if n > 0 {
            "  masks: "@ + decimal(n as nat) + seq!['\n']
        } else {
            Seq::<char>::empty()
        },
        counts_text(ElementCounts { gradients: n, ..no_kind_counts(t) }) == elements_header(t) + if n > 0 {
            "  gradients: "@ + decimal(n as nat) + seq!['\n']
        } else {
            Seq::<char>::empty()
        },
        counts_text(ElementCounts { patterns: n, ..no_kind_counts(t) }) == elements_header(t) + if n > 0 {
            "  patterns: "@ + decimal(n as nat) + seq!['\n']
        } else {
            Seq::<char>::empty()
        },
{
    assert(counts_text(ElementCounts { paths: n, ..no_kind_counts(t) }) =~= elements_header(t) + if n > 0 {
        "  paths: "@ + decimal(n as nat) + seq!['\n']
    } else {
        Seq::<char>::empty()
    });
    assert(counts_text(ElementCounts { groups: n, ..no_kind_counts(t) }) =~= elements_header(t) + if n > 0 {
        "  groups: "@ + decimal(n as nat) + seq!['\n']
    } else {
        Seq::<char>::empty()
    });
    assert(counts_text(ElementCounts { circles: n, ..no_kind_counts(t) }) =~= elements_header(t) + if n > 0 {
        "  circles: "@ + decimal(n as nat) + seq!['\n']
    } else {
        Seq::<char>::empty()
    });
    assert(counts_text(ElementCounts { rects: n, ..no_kind_counts(t) }) =~= elements_header(t) + if n > 0 {
        "  rects: "@ + decimal(n as nat) + seq!['\n']
    } else {
        Seq::<char>::empty()
    });
    assert(counts_text(ElementCounts { ellipses: n, ..no_kind_counts(t) }) =~= elements_header(t) + if n > 0 {
        "  ellipses: "@ + decimal(n as nat) + seq!['\n']
    } else {
        Seq::<char>::empty()
    });
    assert(counts_text(ElementCounts { lines: n, ..no_kind_counts(t) }) =~= elements_header(t) + if n > 0 {
        "  lines: "@ + decimal(n as nat) + seq!['\n']
    } else {
        Seq::<char>::empty()
    });
    assert(counts_text(ElementCounts { polylines: n, ..no_kind_counts(t) }) =~= elements_header(t) + if n > 0 {
        "  polylines: "@ + decimal(n as nat) + seq!['\n']
    } else {
        Seq::<char>::empty()
    });
    assert(counts_text(ElementCounts { polygons: n, ..no_kind_counts(t) }) =~= elements_header(t) + if n > 0 {
        "  polygons: "@ + decimal(n as nat) + seq!['\n']
    } else {
        Seq::<char>::empty()
    });
    assert(counts_text(ElementCounts { text: n, ..no_kind_counts(t) }) =~= elements_header(t) + if n > 0 {
        "  text: "@ + decimal(n as nat) + seq!['\n']
    } else {
        Seq::<char>::empty()
    });
    assert(counts_text(ElementCounts { images: n, ..no_kind_counts(t) }) =~= elements_header(t) + if n > 0 {
        "  images: "@ + decimal(n as nat) + seq!['\n']
    } else {
        Seq::<char>::empty()
    });
    assert(counts_text(ElementCounts { use_elements: n, ..no_kind_counts(t) }) =~= elements_header(t) + if n > 0 {
        "  use: "@ + decimal(n as nat) + seq!['\n']
    } else {
        Seq::<char>::empty()
    });
    assert(counts_text(ElementCounts { defs: n, ..no_kind_counts(t) }) =~= elements_header(t) + if n > 0 {
        "  defs: "@ + decimal(n as nat) + seq!['\n']
    } else {
        Seq::<char>::empty()
    });
    assert(counts_text(ElementCounts { clip_paths: n, ..no_kind_counts(t) }) =~= elements_header(t) + if n > 0 {
        "  clipPaths: "@ + decimal(n as nat) + seq!['\n']
    } else {
        Seq::<char>::empty()
    });
    assert(counts_text(ElementCounts { masks: n, ..no_kind_counts(t) }) =~= elements_header(t) + if n > 0 {
        "  masks: "@ + decimal(n as nat) + seq!['\n']
    } else {
        Seq::<char>::empty()
    });
    assert(counts_text(ElementCounts { gradients: n, ..no_kind_counts(t) }) =~= elements_header(t) + if n > 0 {
        "  gradients: "@ + decimal(n as nat) + seq!['\n']
    } else {
        Seq::<char>::empty()
    });
    assert(counts_text(ElementCounts { patterns: n, ..no_kind_counts(t) }) =~= elements_header(t) + if n > 0 {
        "  patterns: "@ + decimal(n as nat) + seq!['\n']
    } else {
        Seq::<char>::empty()
    });
}

} // verus!
