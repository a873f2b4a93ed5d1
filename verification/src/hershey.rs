//! Hershey single-line font parser.
//!
//! Parses JHF (Jim Hershey Font) text into per-character SVG path data made
//! of `M` and `L` commands only, suitable for plotters: each glyph is drawn
//! with single strokes rather than filled outlines.

use vstd::prelude::*;
use std::collections::HashMap;
use crate::text::{
    chars_of, string_of, push_decimal_i64, decimal_int, trim, trim_bounds, lines_of, split_lines,
    views, leading_digits, leading_spaces, count_digits, count_spaces, utf8_len, utf8_width,
    char_width, is_digit, slice_chars, is_white_space, leading_ws, trailing_ws, lemma_leading_ws,
    lemma_trailing_ws, lemma_leading_digits, lemma_leading_spaces,
};

verus! {

broadcast use vstd::std_specs::hash::group_hash_axioms;

/// A parsed Hershey font containing glyph paths.
#[derive(Debug, Clone)]
pub struct HersheyFont {
    /// Map from ASCII character code to glyph data
    glyphs: HashMap<u8, GlyphData>,
}

/// Data for a single glyph.
#[derive(Debug, Clone)]
pub struct GlyphData {
    /// SVG path commands (M/L only)
    pub path: String,
    /// Left bound (for spacing calculation)
    pub left: i8,
    /// Right bound (for advance width)
    pub right: i8,
}

/// One `M x y` (pen up before) or `L x y` command for a Hershey coordinate
/// pair; Hershey coordinates count from 'R' (ASCII 82).
pub open spec fn hershey_command(pen_up: bool, a: char, b: char) -> Seq<char> {
    (if pen_up { seq!['M', ' '] } else { seq!['L', ' '] }) + decimal_int((a as u32) as int - 82)
        + seq![' '] + decimal_int((b as u32) as int - 82)
}

/// The commands for a run of Hershey coordinate pairs; the pair " R" lifts the pen.
pub open spec fn hershey_commands(s: Seq<char>, pen_up: bool) -> Seq<Seq<char>>
    decreases s.len(),
{
    if s.len() < 2 {
        seq![]
    } else if s[0] == ' ' && s[1] == 'R' {
        hershey_commands(s.skip(2), true)
    } else {
        seq![hershey_command(pen_up, s[0], s[1])] + hershey_commands(s.skip(2), false)
    }
}

/// Strings joined with single spaces between them.
pub open spec fn join_spaced(parts: Seq<Seq<char>>) -> Seq<char>
    decreases parts.len(),
{
    if parts.len() == 0 {
        seq![]
    } else if parts.len() == 1 {
        parts[0]
    } else {
        join_spaced(parts.drop_last()) + seq![' '] + parts.last()
    }
}

/// The SVG path data for Hershey coordinate characters.
pub open spec fn hershey_path(coords: Seq<char>) -> Seq<char> {
    join_spaced(hershey_commands(coords, true))
}

/// Parse Hershey coordinate pairs into SVG path data.
pub fn parse_hershey_coords(coords: &str) -> (r: String)
    ensures
        r@ == hershey_path(coords@),
{
    let chars = chars_of(coords);
    let mut out: Vec<char> = Vec::new();
    let mut pen_up = true;
    let mut any = false;
    let mut i: usize = 0;
    let ghost mut done: Seq<Seq<char>> = seq![];
    assert(chars@.skip(0) =~= chars@);
    while chars.len() - i >= 2
        invariant
            i <= chars.len(),
            hershey_commands(chars@, true) == done + hershey_commands(chars@.skip(i as int), pen_up),
            out@ == join_spaced(done),
            any == (done.len() > 0),
        decreases chars.len() - i,
    {
        let c1 = chars[i];
        let c2 = chars[i + 1];
        let ghost rest = chars@.skip(i as int);
        assert(rest.skip(2) =~= chars@.skip(i + 2));
        if c1 == ' ' && c2 == 'R' {
            pen_up = true;
            i += 2;
            continue;
        }
        let x = (c1 as u32) as i64 - 82;
        let y = (c2 as u32) as i64 - 82;
        let ghost cmd = hershey_command(pen_up, c1, c2);
        if any {
            out.push(' ');
        }
        if pen_up {
            out.push('M');
        } else {
            out.push('L');
        }
        out.push(' ');
        push_decimal_i64(&mut out, x);
        out.push(' ');
        push_decimal_i64(&mut out, y);
        proof {
            let old_done = done;
            done = done.push(cmd);
            assert(done.drop_last() =~= old_done);
            assert(hershey_commands(rest, pen_up) =~= seq![cmd] + hershey_commands(rest.skip(2), false));
            assert(old_done + hershey_commands(rest, pen_up) =~= done + hershey_commands(rest.skip(2), false));
            if old_done.len() == 0 {
                assert(out@ =~= cmd);
            } else {
                assert(out@ =~= join_spaced(old_done) + seq![' '] + cmd);
            }
        }
        pen_up = false;
        any = true;
        i += 2;
    }
    proof {
        assert(hershey_commands(chars@.skip(i as int), pen_up) =~= Seq::<Seq<char>>::empty());
        assert(done + Seq::<Seq<char>>::empty() =~= done);
    }
    string_of(out.as_slice())
}


/// A Hershey coordinate pair as SVG coordinates: each character counted
/// from 'R' (ASCII 82), separated by a space.
pub open spec fn pair_coords(a: char, b: char) -> Seq<char> {
    decimal_int((a as u32) as int - 82) + seq![' '] + decimal_int((b as u32) as int - 82)
}

/// How coordinate pairs draw: the first pair moves the pen (`M`), a pair
/// that follows another is a line to it (`L`), and the pair " R" lifts the
/// pen, so the pair after it moves again; commands are separated by spaces.
pub proof fn hershey_pairs_draw_and_lift(a: char, b: char, c: char, d: char)
    requires
        !(a == ' ' && b == 'R'),
        !(c == ' ' && d == 'R'),
    ensures
        hershey_path(seq![a, b]) == seq!['M', ' '] + pair_coords(a, b),
        hershey_path(seq![a, b, c, d]) == seq!['M', ' '] + pair_coords(a, b) + seq![' ', 'L', ' ']
            + pair_coords(c, d),
        hershey_path(seq![a, b, ' ', 'R', c, d]) == seq!['M', ' '] + pair_coords(a, b) + seq![
            ' ',
            'M',
            ' ',
        ] + pair_coords(c, d),
{
    let p = seq![a, b];
    assert(p.skip(2) =~= Seq::<char>::empty());
    assert(hershey_commands(p.skip(2), false) =~= Seq::<Seq<char>>::empty());
    assert(hershey_commands(p, true) =~= seq![hershey_command(true, a, b)]);
    let q = seq![a, b, c, d];
    assert(q.skip(2) =~= seq![c, d]);
    assert(q.skip(2).skip(2) =~= Seq::<char>::empty());
    assert(hershey_commands(q.skip(2).skip(2), false) =~= Seq::<Seq<char>>::empty());
    assert(hershey_commands(q.skip(2), false) =~= seq![hershey_command(false, c, d)]);
    assert(hershey_commands(q, true) =~= seq![hershey_command(true, a, b), hershey_command(false, c, d)]);
    let r = seq![a, b, ' ', 'R', c, d];
    assert(r.skip(2) =~= seq![' ', 'R', c, d]);
    assert(r.skip(2).skip(2) =~= seq![c, d]);
    assert(r.skip(2).skip(2).skip(2) =~= Seq::<char>::empty());
    assert(hershey_commands(r.skip(2).skip(2).skip(2), false) =~= Seq::<Seq<char>>::empty());
    assert(hershey_commands(r.skip(2).skip(2), true) =~= seq![hershey_command(true, c, d)]);
    assert(r.skip(2)[0] == ' ' && r.skip(2)[1] == 'R');
    assert(hershey_commands(r.skip(2), false) =~= seq![hershey_command(true, c, d)]);
    assert(hershey_commands(r, true) =~= seq![hershey_command(true, a, b), hershey_command(true, c, d)]);
    let two = seq![hershey_command(true, a, b), hershey_command(false, c, d)];
    assert(two.drop_last() =~= seq![hershey_command(true, a, b)]);
    let two_up = seq![hershey_command(true, a, b), hershey_command(true, c, d)];
    assert(two_up.drop_last() =~= seq![hershey_command(true, a, b)]);
    assert(hershey_path(p) =~= seq!['M', ' '] + pair_coords(a, b));
    assert(hershey_path(q) =~= seq!['M', ' '] + pair_coords(a, b) + seq![' ', 'L', ' '] + pair_coords(c, d));
    assert(hershey_path(r) =~= seq!['M', ' '] + pair_coords(a, b) + seq![' ', 'M', ' '] + pair_coords(c, d));
}

/// What one line of JHF text contributes: nothing, a glyph (path data, left
/// and right bound), or a line on which the parser would stop with a panic
/// (a bound that does not fit in `i8`, or a byte offset inside a character).
pub enum LineGlyph {
    Skip,
    Glyph(Seq<char>, i8, i8),
    Broken,
}

/// The low byte of a character's code, read as a signed byte (`c as i8`).
pub open spec fn low_i8(c: char) -> int {
    let b = (c as u32) % 256;
    if b < 128 {
        b as int
    } else {
        b - 256
    }
}

/// The glyph that a line of JHF text describes.
///
/// JHF line format: `NNNNN  <count><left><right><coords>`, e.g.
/// `12345  9MWRFRT RRYQZR[SZRY`. Lengths are compared in UTF-8 bytes and the
/// coordinates start at byte 2 after the stroke count, as in the byte-indexed
/// slicing of the format.
pub open spec fn line_glyph(line: Seq<char>) -> LineGlyph {
    let t = trim(line);
    if t.len() == 0 || !is_digit(t[0]) {
        LineGlyph::Skip
    } else {
        let k = leading_digits(t);
        let m = leading_spaces(t.skip(k as int));
        let data = t.skip((k + m) as int);
        if utf8_len(data) < 3 {
            LineGlyph::Skip
        } else {
            let j = leading_digits(data);
            if j == 0 || j == data.len() {
                LineGlyph::Skip
            } else {
                let rest = data.skip(j as int);
                if utf8_len(rest) < 2 {
                    LineGlyph::Skip
                } else {
                    let l = low_i8(rest[0]) - 82;
                    if l < -128 || rest.len() < 2 {
                        LineGlyph::Broken
                    } else {
                        let r = low_i8(rest[1]) - 82;
                        if r < -128 {
                            LineGlyph::Broken
                        } else if utf8_width(rest[0]) == 1 && utf8_width(rest[1]) == 1 {
                            LineGlyph::Glyph(hershey_path(rest.skip(2)), l as i8, r as i8)
                        } else if utf8_width(rest[0]) == 2 {
                            LineGlyph::Glyph(hershey_path(rest.skip(1)), l as i8, r as i8)
                        } else {
                            LineGlyph::Broken
                        }
                    }
                }
            }
        }
    }
}

proof fn lemma_utf8_len_at_least(s: Seq<char>)
    ensures
        utf8_len(s) >= s.len(),
    decreases s.len(),
{
    if s.len() > 0 {
        lemma_utf8_len_at_least(s.drop_last());
    }
}

/// How a JHF glyph line reads: a line made of the glyph number, spaces, the
/// stroke count (every one of its leading digits, however many), the left
/// and right bound characters and the coordinate characters defines the
/// glyph whose bounds are those characters counted from 'R' and whose path
/// is the path of the coordinates.
#[verifier::spinoff_prover]
#[verifier::rlimit(40)]
pub proof fn jhf_line_fields(
    num: Seq<char>,
    sp: Seq<char>,
    count: Seq<char>,
    l: char,
    r: char,
    coords: Seq<char>,
)
    requires
        num.len() > 0,
        forall|i: int| 0 <= i < num.len() ==> is_digit(#[trigger] num[i]),
        sp.len() > 0,
        forall|i: int| 0 <= i < sp.len() ==> #[trigger] sp[i] == ' ',
        count.len() > 0,
        forall|i: int| 0 <= i < count.len() ==> is_digit(#[trigger] count[i]),
        !is_digit(l),
        (l as u32) < 128,
        (r as u32) < 128,
        !is_white_space(if coords.len() > 0 { coords.last() } else { r }),
    ensures
        line_glyph(num + sp + count + seq![l, r] + coords) == LineGlyph::Glyph(
            hershey_path(coords),
            ((l as u32) as int - 82) as i8,
            ((r as u32) as int - 82) as i8,
        ),
{
    let line = num + sp + count + seq![l, r] + coords;
    let n = line.len() as int;
    assert(line[0] == num[0]);
    lemma_leading_ws(line, 0);
    assert(line[n - 1] == if coords.len() > 0 { coords.last() } else { r });
    lemma_trailing_ws(line, n);
    assert(trim(line) =~= line);
    let k = num.len() as int;
    assert(line[k] == sp[0]);
    assert forall|i: int| 0 <= i < k implies is_digit(#[trigger] line[i]) by {
        assert(line[i] == num[i]);
    }
    lemma_leading_digits(line, k);
    let after = line.skip(k);
    let m = sp.len() as int;
    assert(after[m] == count[0]);
    assert forall|i: int| 0 <= i < m implies #[trigger] after[i] == ' ' by {
        assert(after[i] == sp[i]);
    }
    lemma_leading_spaces(after, m);
    let data = line.skip(k + m);
    assert(data =~= count + seq![l, r] + coords);
    lemma_utf8_len_at_least(data);
    let j = count.len() as int;
    assert(data[j] == l);
    assert forall|i: int| 0 <= i < j implies is_digit(#[trigger] data[i]) by {
        assert(data[i] == count[i]);
    }
    lemma_leading_digits(data, j);
    let rest = data.skip(j);
    assert(rest =~= seq![l, r] + coords);
    lemma_utf8_len_at_least(rest);
    assert(rest[0] == l && rest[1] == r);
    assert(rest.skip(2) =~= coords);
}

/// A line that holds only white space (skipped without being counted).
pub open spec fn is_blank(line: Seq<char>) -> bool {
    trim(line).len() == 0
}

/// What reading one more line does to the glyphs read so far and the count
/// of non-blank lines: the n-th non-blank line (from 0) defines character
/// code (n + 32) mod 256, replacing an earlier definition of that code.
pub open spec fn glyph_step(
    state: (Map<u8, (Seq<char>, i8, i8)>, nat),
    line: Seq<char>,
) -> (Map<u8, (Seq<char>, i8, i8)>, nat) {
    let (m, n) = state;
    if is_blank(line) {
        (m, n)
    } else {
        match line_glyph(line) {
            LineGlyph::Glyph(p, l, r) => (m.insert(((n + 32) % 256) as u8, (p, l, r)), n + 1),
            _ => (m, n + 1),
        }
    }
}

/// The glyphs read from the first lines of a JHF text, and how many non-blank
/// lines they span.
pub open spec fn glyph_table(lines: Seq<Seq<char>>) -> (Map<u8, (Seq<char>, i8, i8)>, nat)
    decreases lines.len(),
{
    if lines.len() == 0 {
        (Map::empty(), 0)
    } else {
        glyph_step(glyph_table(lines.drop_last()), lines.last())
    }
}

/// The parser stops with a panic on none of the lines of the text.
pub open spec fn jhf_parses(content: Seq<char>) -> bool {
    forall|k: int|
        0 <= k < lines_of(content).len() && !is_blank(#[trigger] lines_of(content)[k])
            ==> !(line_glyph(lines_of(content)[k]) is Broken)
}

/// The view of a glyph: path data and bounds.
pub open spec fn glyph_view(g: GlyphData) -> (Seq<char>, i8, i8) {
    (g.path@, g.left, g.right)
}

impl HersheyFont {
    /// The glyphs of the font by character code.
    pub closed spec fn glyph_map(&self) -> Map<u8, (Seq<char>, i8, i8)> {
        glyph_views(self.glyphs@)
    }

    /// Parse JHF format content.
    pub fn parse(content: &str) -> (r: Result<Self, String>)
        requires
            jhf_parses(content@),
        ensures
            r matches Ok(font) && font.glyph_map() == glyph_table(lines_of(content@)).0,
    {
        let chars = chars_of(content);
        let lines = split_lines(chars.as_slice());
        let mut glyphs: HashMap<u8, GlyphData> = HashMap::new();
        let mut index: usize = 0;
        let mut i: usize = 0;
        while i < lines.len()
            invariant
                i <= lines.len(),
                views(lines@) == lines_of(content@),
                jhf_parses(content@),
                glyph_table(views(lines@).take(i as int)) == (glyph_views(glyphs@), index as nat),
                index <= i,
            decreases lines.len() - i,
        {
            assert(views(lines@)[i as int] == lines@[i as int]@);
            assert(views(lines@).take(i + 1).drop_last() =~= views(lines@).take(i as int));
            read_glyph_line(&mut glyphs, &mut index, lines[i].as_slice());
            i += 1;
        }
        assert(views(lines@).take(lines.len() as int) =~= views(lines@));
        Ok(HersheyFont { glyphs })
    }

    /// Get glyph data for a character.
    pub fn get_glyph(&self, c: char) -> (r: Option<&GlyphData>)
        ensures
            (c as u32) < 128 && self.glyph_map().contains_key((c as u32) as u8) ==> (r matches Some(g)
                && glyph_view(*g) == self.glyph_map()[(c as u32) as u8]),
            !((c as u32) < 128 && self.glyph_map().contains_key((c as u32) as u8)) ==> r is None,
    {
        if (c as u32) < 128 {
            let code = (c as u32) as u8;
            self.glyphs.get(&code)
        } else {
            None
        }
    }
}

/// The views of a glyph table.
pub open spec fn glyph_views(m: Map<u8, GlyphData>) -> Map<u8, (Seq<char>, i8, i8)> {
    m.map_values(|g: GlyphData| glyph_view(g))
}

/// Reads one line of JHF text into the glyph table.
fn read_glyph_line(glyphs: &mut HashMap<u8, GlyphData>, index: &mut usize, line: &[char])
    requires
        !is_blank(line@) ==> !(line_glyph(line@) is Broken),
        *old(index) < usize::MAX,
    ensures
        (glyph_views(final(glyphs)@), *final(index) as nat) == glyph_step(
            (glyph_views(old(glyphs)@), *old(index) as nat),
            line@,
        ),
{
    let (a, b) = trim_bounds(line);
    if a < b {
        match parse_glyph_line(line) {
            Some(g) => {
                let char_code = ((*index % 256) as u8).wrapping_add(32);
                assert(char_code == ((*index + 32) % 256) as u8);
                let ghost gv = glyph_view(g);
                let ghost old_map = glyphs@;
                glyphs.insert(char_code, g);
                assert(glyph_views(glyphs@) =~= glyph_views(old_map).insert(char_code, gv));
            },
            None => {},
        }
        *index += 1;
    }
}

/// The glyph on one non-blank JHF line, if it defines one.
fn parse_glyph_line(line: &[char]) -> (r: Option<GlyphData>)
    requires
        !(line_glyph(line@) is Broken),
        !is_blank(line@),
    ensures
        match line_glyph(line@) {
            LineGlyph::Glyph(p, l, rt) => r matches Some(g) && glyph_view(g) == (p, l, rt),
            _ => r is None,
        },
{
    let (a, b) = trim_bounds(line);
    let t = slice_chars(line, a, b);
    assert(t@ == trim(line@));
    if t.len() == 0 || !('0' <= t[0] && t[0] <= '9') {
        return None;
    }
    let k = count_digits(t.as_slice(), 0);
    assert(t@.skip(0) =~= t@);
    let m = count_spaces(t.as_slice(), k);
    let data = slice_chars(t.as_slice(), k + m, t.len());
    assert(data@ =~= t@.skip(k + m));
    if utf8_len_at_least(data.as_slice(), 3) == false {
        return None;
    }
    let j = count_digits(data.as_slice(), 0);
    assert(data@.skip(0) =~= data@);
    if j == 0 || j == data.len() {
        return None;
    }
    let rest = slice_chars(data.as_slice(), j, data.len());
    assert(rest@ =~= data@.skip(j as int));
    if utf8_len_at_least(rest.as_slice(), 2) == false {
        return None;
    }
    let l = low_byte(rest[0]) - 82;
    let r = low_byte(rest[1]) - 82;
    let w0 = char_width(rest[0]);
    let coords = if w0 == 1 {
        slice_chars(rest.as_slice(), 2, rest.len())
    } else {
        slice_chars(rest.as_slice(), 1, rest.len())
    };
    let path = parse_hershey_coords_chars(coords.as_slice());
    Some(GlyphData { path, left: l as i8, right: r as i8 })
}

/// `c as i8`: the low byte of the character code, signed.
fn low_byte(c: char) -> (r: i32)
    ensures
        r == low_i8(c),
{
    let b = (c as u32) % 256;
    if b < 128 {
        b as i32
    } else {
        b as i32 - 256
    }
}

/// Whether the UTF-8 encoding of `s` takes at least `n` bytes.
fn utf8_len_at_least(s: &[char], n: usize) -> (r: bool)
    requires
        n <= 4,
    ensures
        r == (utf8_len(s@) >= n),
{
    let mut total: usize = 0;
    let mut i: usize = 0;
    while i < s.len() && total < n
        invariant
            i <= s.len(),
            total == utf8_len(s@.take(i as int)),
            total < n + 4,
            n <= 4,
        decreases s.len() - i,
    {
        assert(s@.take(i + 1).drop_last() =~= s@.take(i as int));
        total = total + char_width(s[i]);
        i += 1;
    }
    proof {
        lemma_utf8_len_prefix(s@, i as int);
        if i == s.len() {
            assert(s@.take(i as int) =~= s@);
        }
    }
    total >= n
}

proof fn lemma_utf8_len_prefix(s: Seq<char>, i: int)
    requires
        0 <= i <= s.len(),
    ensures
        utf8_len(s.take(i)) <= utf8_len(s),
    decreases s.len() - i,
{
    if i < s.len() {
        lemma_utf8_len_prefix(s, i + 1);
        assert(s.take(i + 1).drop_last() =~= s.take(i));
    } else {
        assert(s.take(i) =~= s);
    }
}

/// Whether a non-blank JHF line is one on which parsing would stop with a
/// panic (see `line_glyph`).
fn line_is_broken(line: &[char]) -> (r: bool)
    ensures
        r == (line_glyph(line@) is Broken),
{
    let (a, b) = trim_bounds(line);
    let t = slice_chars(line, a, b);
    assert(t@ == trim(line@));
    if t.len() == 0 || !('0' <= t[0] && t[0] <= '9') {
        return false;
    }
    let k = count_digits(t.as_slice(), 0);
    assert(t@.skip(0) =~= t@);
    let m = count_spaces(t.as_slice(), k);
    let data = slice_chars(t.as_slice(), k + m, t.len());
    assert(data@ =~= t@.skip(k + m));
    if utf8_len_at_least(data.as_slice(), 3) == false {
        return false;
    }
    let j = count_digits(data.as_slice(), 0);
    assert(data@.skip(0) =~= data@);
    if j == 0 || j == data.len() {
        return false;
    }
    let rest = slice_chars(data.as_slice(), j, data.len());
    assert(rest@ =~= data@.skip(j as int));
    if utf8_len_at_least(rest.as_slice(), 2) == false {
        return false;
    }
    let l = low_byte(rest[0]) - 82;
    if l < -128 || rest.len() < 2 {
        return true;
    }
    let r = low_byte(rest[1]) - 82;
    if r < -128 {
        return true;
    }
    let w0 = char_width(rest[0]);
    let w1 = char_width(rest[1]);
    !((w0 == 1 && w1 == 1) || w0 == 2)
}

/// Whether `HersheyFont::parse` takes this text: no non-blank line is one
/// on which parsing would stop with a panic (see `jhf_parses`).
pub fn jhf_text_ok(content: &str) -> (r: bool)
    ensures
        r == jhf_parses(content@),
{
    let chars = chars_of(content);
    let lines = split_lines(chars.as_slice());
    let mut i: usize = 0;
    while i < lines.len()
        invariant
            i <= lines.len(),
            views(lines@) == lines_of(content@),
            forall|k: int|
                0 <= k < i && !is_blank(#[trigger] lines_of(content@)[k]) ==> !(line_glyph(
                    lines_of(content@)[k],
                ) is Broken),
        decreases lines.len() - i,
    {
        assert(views(lines@)[i as int] == lines@[i as int]@);
        let (a, b) = trim_bounds(lines[i].as_slice());
        if a < b && line_is_broken(lines[i].as_slice()) {
            return false;
        }
        i += 1;
    }
    true
}

/// Parse Hershey coordinate pairs held as characters.
fn parse_hershey_coords_chars(coords: &[char]) -> (r: String)
    ensures
        r@ == hershey_path(coords@),
{
    let s = string_of(coords);
    parse_hershey_coords(s.as_str())
}

} // verus!
