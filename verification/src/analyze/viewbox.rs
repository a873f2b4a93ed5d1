//! The viewBox attribute: four numbers separated by commas or spaces.

use vstd::prelude::*;
use crate::text::{chars_of, find_chars, find_from, is_digit, slice_chars, string_of, trim, trim_chars, views};

verus! {

/// Only ASCII digits.
pub open spec fn all_digits(s: Seq<char>) -> bool {
    forall|i: int| 0 <= i < s.len() ==> is_digit(#[trigger] s[i])
}

/// `s` without one leading `+` or `-`.
pub open spec fn unsigned_part(s: Seq<char>) -> Seq<char> {
    if s.len() > 0 && (s[0] == '+' || s[0] == '-') {
        s.drop_first()
    } else {
        s
    }
}

/// `c` is the lowercase letter `w` or its ASCII uppercase form.
pub open spec fn same_letter(c: char, w: char) -> bool {
    c == w || ('A' <= c <= 'Z' && (c as u32) + 32 == (w as u32))
}

/// Equal to the lowercase `word` ignoring ASCII case.
pub open spec fn equals_ignoring_case(s: Seq<char>, word: Seq<char>) -> bool {
    s.len() == word.len() && forall|i: int| 0 <= i < s.len() ==> same_letter(#[trigger] s[i], word[i])
}

/// The position of the first `e` or `E`, or the length when there is none.
pub open spec fn exponent_index(s: Seq<char>) -> int
    decreases s.len(),
{
    if s.len() == 0 {
        0
    } else if s[0] == 'e' || s[0] == 'E' {
        0
    } else {
        1 + exponent_index(s.drop_first())
    }
}

/// Digits, optionally with one decimal point, and at least one digit.
pub open spec fn is_mantissa(m: Seq<char>) -> bool {
    match find_from(m, seq!['.'], 0) {
        None => m.len() > 0 && all_digits(m),
        Some(k) => m.len() >= 2 && all_digits(m.take(k)) && all_digits(m.skip(k + 1)),
    }
}

/// An optional sign followed by at least one digit.
pub open spec fn is_exponent(e: Seq<char>) -> bool {
    unsigned_part(e).len() > 0 && all_digits(unsigned_part(e))
}

/// A mantissa with an optional exponent part `e<exponent>`.
pub open spec fn is_decimal_number(b: Seq<char>) -> bool {
    let k = exponent_index(b);
    if k == b.len() {
        is_mantissa(b)
    } else {
        is_mantissa(b.take(k)) && is_exponent(b.skip(k + 1))
    }
}

/// The strings that `str::parse::<f64>` accepts, by the grammar in its
/// documentation: an optional sign, then `inf`, `infinity`, `nan` (any case)
/// or a decimal number with an optional exponent.
pub open spec fn is_float_text(s: Seq<char>) -> bool {
    let b = unsigned_part(s);
    ||| equals_ignoring_case(b, seq!['i', 'n', 'f'])
    ||| equals_ignoring_case(b, seq!['i', 'n', 'f', 'i', 'n', 'i', 't', 'y'])
    ||| equals_ignoring_case(b, seq!['n', 'a', 'n'])
    ||| is_decimal_number(b)
}

fn digits_only(s: &[char]) -> (r: bool)
    ensures
        r == all_digits(s@),
{
    let mut i: usize = 0;
    while i < s.len()
        invariant
            i <= s.len(),
            forall|j: int| 0 <= j < i ==> is_digit(#[trigger] s@[j]),
        decreases s.len() - i,
    {
        if !('0' <= s[i] && s[i] <= '9') {
            return false;
        }
        i += 1;
    }
    true
}

fn without_sign(s: &[char]) -> (r: Vec<char>)
    ensures
        r@ == unsigned_part(s@),
{
    if s.len() > 0 && (s[0] == '+' || s[0] == '-') {
        let r = slice_chars(s, 1, s.len());
        assert(r@ =~= s@.drop_first());
        r
    } else {
        slice_chars(s, 0, s.len())
    }
}

fn letter_matches(c: char, w: char) -> (r: bool)
    ensures
        r == same_letter(c, w),
{
    c == w || ('A' <= c && c <= 'Z' && (c as u32) + 32 == (w as u32))
}

fn same_ignoring_case(s: &[char], word: &[char]) -> (r: bool)
    ensures
        r == equals_ignoring_case(s@, word@),
{
    if s.len() != word.len() {
        return false;
    }
    let mut i: usize = 0;
    while i < s.len()
        invariant
            i <= s.len(),
            s@.len() == word@.len(),
            forall|j: int| 0 <= j < i ==> same_letter(#[trigger] s@[j], word@[j]),
        decreases s.len() - i,
    {
        if !letter_matches(s[i], word[i]) {
            return false;
        }
        i += 1;
    }
    true
}

proof fn lemma_exponent_index(s: Seq<char>, i: int)
    requires
        0 <= i <= s.len(),
        forall|j: int| 0 <= j < i ==> #[trigger] s[j] != 'e' && s[j] != 'E',
        i == s.len() || s[i] == 'e' || s[i] == 'E',
    ensures
        exponent_index(s) == i,
    decreases i,
{
    if i > 0 {
        assert forall|j: int| 0 <= j < i - 1 implies #[trigger] s.drop_first()[j] != 'e'
            && s.drop_first()[j] != 'E' by {
            assert(s.drop_first()[j] == s[j + 1]);
        }
        lemma_exponent_index(s.drop_first(), i - 1);
    }
}

fn find_exponent(s: &[char]) -> (r: usize)
    ensures
        r == exponent_index(s@),
        r <= s@.len(),
{
    let mut i: usize = 0;
    while i < s.len() && s[i] != 'e' && s[i] != 'E'
        invariant
            i <= s.len(),
            forall|j: int| 0 <= j < i ==> #[trigger] s@[j] != 'e' && s@[j] != 'E',
        decreases s.len() - i,
    {
        i += 1;
    }
    proof {
        lemma_exponent_index(s@, i as int);
    }
    i
}

fn mantissa_ok(m: &[char]) -> (r: bool)
    ensures
        r == is_mantissa(m@),
{
    let dot: Vec<char> = vec!['.'];
    assert(dot@ =~= seq!['.']);
    match find_chars(m, dot.as_slice(), 0) {
        None => m.len() > 0 && digits_only(m),
        Some(k) => {
            proof {
                crate::common::lemma_find_from_bounds(m@, dot@, 0);
            }
            let n = m.len();
            assert(k + 1 <= n);
            let before = slice_chars(m, 0, k);
            let after = slice_chars(m, k + 1, m.len());
            assert(before@ =~= m@.take(k as int));
            assert(after@ =~= m@.skip(k + 1));
            m.len() >= 2 && digits_only(before.as_slice()) && digits_only(after.as_slice())
        },
    }
}

fn exponent_ok(e: &[char]) -> (r: bool)
    ensures
        r == is_exponent(e@),
{
    let d = without_sign(e);
    d.len() > 0 && digits_only(d.as_slice())
}

/// Whether `str::parse::<f64>` accepts `s` (see `is_float_text`).
pub fn float_text_ok(s: &[char]) -> (r: bool)
    ensures
        r == is_float_text(s@),
{
    let b = without_sign(s);
    let inf: Vec<char> = vec!['i', 'n', 'f'];
    let infinity: Vec<char> = vec!['i', 'n', 'f', 'i', 'n', 'i', 't', 'y'];
    let nan: Vec<char> = vec!['n', 'a', 'n'];
    assert(inf@ =~= seq!['i', 'n', 'f']);
    assert(infinity@ =~= seq!['i', 'n', 'f', 'i', 'n', 'i', 't', 'y']);
    assert(nan@ =~= seq!['n', 'a', 'n']);
    if same_ignoring_case(b.as_slice(), inf.as_slice())
        || same_ignoring_case(b.as_slice(), infinity.as_slice())
        || same_ignoring_case(b.as_slice(), nan.as_slice()) {
        return true;
    }
    let k = find_exponent(b.as_slice());
    if k == b.len() {
        mantissa_ok(b.as_slice())
    } else {
        let m = slice_chars(b.as_slice(), 0, k);
        let e = slice_chars(b.as_slice(), k + 1, b.len());
        assert(m@ =~= b@.take(k as int));
        assert(e@ =~= b@.skip(k + 1));
        mantissa_ok(m.as_slice()) && exponent_ok(e.as_slice())
    }
}

/// A viewBox separator: comma or space.
pub open spec fn is_separator(c: char) -> bool {
    c == ',' || c == ' '
}

/// The pieces of `s` between separators, as `str::split` gives them: one
/// more piece than there are separators.
pub open spec fn split_pieces(s: Seq<char>) -> Seq<Seq<char>>
    decreases s.len(),
{
    if s.len() == 0 {
        seq![Seq::empty()]
    } else {
        let init = split_pieces(s.drop_last());
        if is_separator(s.last()) {
            init.push(Seq::empty())
        } else {
            init.update(init.len() - 1, init.last().push(s.last()))
        }
    }
}

/// The trimmed pieces that are not empty, in order.
pub open spec fn nonempty_trimmed(pieces: Seq<Seq<char>>) -> Seq<Seq<char>>
    decreases pieces.len(),
{
    if pieces.len() == 0 {
        Seq::empty()
    } else {
        let init = nonempty_trimmed(pieces.drop_last());
        let t = trim(pieces.last());
        if t.len() == 0 {
            init
        } else {
            init.push(t)
        }
    }
}

/// The number texts of a viewBox value.
pub open spec fn viewbox_fields(v: Seq<char>) -> Seq<Seq<char>> {
    nonempty_trimmed(split_pieces(v))
}

/// A viewBox value is valid when it holds exactly four numbers.
pub open spec fn is_valid_viewbox(v: Seq<char>) -> bool {
    let f = viewbox_fields(v);
    &&& f.len() == 4
    &&& is_float_text(f[0])
    &&& is_float_text(f[1])
    &&& is_float_text(f[2])
    &&& is_float_text(f[3])
}

fn split_at_separators(s: &[char]) -> (r: Vec<Vec<char>>)
    ensures
        views(r@) == split_pieces(s@),
{
    let mut pieces: Vec<Vec<char>> = Vec::new();
    pieces.push(Vec::new());
    assert(views(pieces@) =~= split_pieces(s@.take(0)));
    let mut i: usize = 0;
    while i < s.len()
        invariant
            i <= s.len(),
            pieces.len() >= 1,
            views(pieces@) == split_pieces(s@.take(i as int)),
        decreases s.len() - i,
    {
        let c = s[i];
        assert(s@.take(i + 1).drop_last() =~= s@.take(i as int));
        assert(s@.take(i + 1).last() == c);
        if c == ',' || c == ' ' {
            pieces.push(Vec::new());
            assert(views(pieces@) =~= split_pieces(s@.take(i + 1)));
        } else {
            let mut last = pieces.pop().unwrap();
            last.push(c);
            pieces.push(last);
            assert(views(pieces@) =~= split_pieces(s@.take(i + 1)));
        }
        i += 1;
    }
    assert(s@.take(s.len() as int) =~= s@);
    pieces
}

fn trimmed_nonempty(pieces: &Vec<Vec<char>>) -> (r: Vec<Vec<char>>)
    ensures
        views(r@) == nonempty_trimmed(views(pieces@)),
{
    let mut out: Vec<Vec<char>> = Vec::new();
    let mut j: usize = 0;
    while j < pieces.len()
        invariant
            j <= pieces.len(),
            views(out@) == nonempty_trimmed(views(pieces@).take(j as int)),
        decreases pieces.len() - j,
    {
        let t = trim_chars(pieces[j].as_slice());
        assert(views(pieces@).take(j + 1).drop_last() =~= views(pieces@).take(j as int));
        assert(views(pieces@).take(j + 1).last() == pieces@[j as int]@);
        if t.len() > 0 {
            out.push(t);
        }
        assert(views(out@) =~= nonempty_trimmed(views(pieces@).take(j + 1)));
        j += 1;
    }
    assert(views(pieces@).take(pieces.len() as int) =~= views(pieces@));
    out
}

/// SVG viewBox values, as the four number texts of the attribute (each one
/// that `str::parse::<f64>` accepts).
#[derive(Debug, Clone)]
pub struct ViewBox {
    pub min_x: String,
    pub min_y: String,
    pub width: String,
    pub height: String,
}

/// The four texts of a view box, in order.
pub open spec fn viewbox_texts(vb: ViewBox) -> Seq<Seq<char>> {
    seq![vb.min_x@, vb.min_y@, vb.width@, vb.height@]
}

/// Parse a viewBox attribute value: four numbers separated by commas and/or
/// spaces; `None` unless there are exactly four and each is a number.
pub fn parse_viewbox(value: &str) -> (r: Option<ViewBox>)
    ensures
        r is Some <==> is_valid_viewbox(value@),
        r matches Some(vb) ==> viewbox_texts(vb) == viewbox_fields(value@),
{
    let chars = chars_of(value);
    let pieces = split_at_separators(chars.as_slice());
    let fields = trimmed_nonempty(&pieces);
    if fields.len() != 4 {
        return None;
    }
    assert(views(fields@)[0] == fields@[0]@);
    assert(views(fields@)[1] == fields@[1]@);
    assert(views(fields@)[2] == fields@[2]@);
    assert(views(fields@)[3] == fields@[3]@);
    if float_text_ok(fields[0].as_slice()) && float_text_ok(fields[1].as_slice())
        && float_text_ok(fields[2].as_slice()) && float_text_ok(fields[3].as_slice()) {
        let vb = ViewBox {
            min_x: string_of(fields[0].as_slice()),
            min_y: string_of(fields[1].as_slice()),
            width: string_of(fields[2].as_slice()),
            height: string_of(fields[3].as_slice()),
        };
        assert(viewbox_texts(vb) =~= viewbox_fields(value@));
        Some(vb)
    } else {
        None
    }
}

} // verus!
