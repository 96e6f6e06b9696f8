//! Text measured in terminal cells.
use vstd::prelude::*;

verus! {

/// The number of terminal cells `s` takes when drawn, as ratatui measures a line of text.
pub uninterp spec fn display_width(s: Seq<char>) -> usize;

/// Calls `ratatui::text::Line::width` on a line made of `s`; the result is named
/// `display_width(s@)`, which ratatui computes with `unicode-width`. Nothing more is claimed of
/// it here.
#[verifier::external_body]
pub(crate) fn text_width(s: &str) -> (r: usize)
    ensures
        r == display_width(s@),
{
    ratatui::text::Line::from(s).width()
}

/// The cells taken by the first `k` characters of `s`, counted one character at a time
/// and saturating at `usize::MAX`.
pub open spec fn prefix_cells(s: Seq<char>, k: int) -> int
    decreases k,
{
    if k <= 0 {
        0
    } else {
        let prev = prefix_cells(s, k - 1);
        let w = display_width(seq![s[k - 1]]) as int;
        if prev + w > usize::MAX as int { usize::MAX as int } else { prev + w }
    }
}

/// How many leading characters of `s` fit in `max_width` cells: characters are taken one by
/// one until one that takes cells would go past `max_width`; characters that take no cells are
/// always taken while nothing has stopped.
pub open spec fn fit_count(s: Seq<char>, max_width: usize, k: int) -> int
    decreases s.len() - k,
{
    if k < 0 || k >= s.len() {
        s.len() as int
    } else {
        let w = display_width(seq![s[k]]) as int;
        if w > 0 && prefix_cells(s, k) + w > max_width as int {
            k
        } else {
            fit_count(s, max_width, k + 1)
        }
    }
}

/// The leading characters of `value` that fit in `max_width` cells.
pub open spec fn spec_truncate_cells(value: Seq<char>, max_width: usize) -> Seq<char> {
    value.take(fit_count(value, max_width, 0))
}

pub proof fn lemma_fit_count_bounds(s: Seq<char>, max_width: usize, k: int)
    requires
        0 <= k <= s.len(),
    ensures
        k <= fit_count(s, max_width, k) <= s.len(),
    decreases s.len() - k,
{
    if k < s.len() {
        lemma_fit_count_bounds(s, max_width, k + 1);
    }
}

proof fn lemma_fit_within(s: Seq<char>, max_width: usize, k: int)
    requires
        0 <= k <= s.len(),
        prefix_cells(s, k) <= max_width,
    ensures
        prefix_cells(s, fit_count(s, max_width, k)) <= max_width,
    decreases s.len() - k,
{
    if k < s.len() {
        let w = display_width(seq![s[k]]) as int;
        if !(w > 0 && prefix_cells(s, k) + w > max_width as int) {
            lemma_fit_within(s, max_width, k + 1);
        }
    }
}

/// The characters kept by `truncate_cells` take at most `max_width` cells, counted one
/// character at a time, and they are the start of the text.
pub proof fn law_truncate_fits(value: Seq<char>, max_width: usize)
    ensures
        spec_truncate_cells(value, max_width).len() <= value.len(),
        spec_truncate_cells(value, max_width) == value.take(spec_truncate_cells(value, max_width).len() as int),
        prefix_cells(value, spec_truncate_cells(value, max_width).len() as int) <= max_width,
{
    lemma_fit_count_bounds(value, max_width, 0);
    lemma_fit_within(value, max_width, 0);
}

/// The leading characters of `value` that fit in `max_width` cells.
pub fn truncate_cells(value: &str, max_width: usize) -> (r: String)
    ensures
        r@ == spec_truncate_cells(value@, max_width),
{
    let n = value.unicode_len();
    let mut width: usize = 0;
    let mut k: usize = 0;
    while k < n
        invariant
            n == value@.len(),
            k <= n,
            width == prefix_cells(value@, k as int),
            fit_count(value@, max_width, 0) == fit_count(value@, max_width, k as int),
        decreases n - k,
    {
        let one = value.substring_char(k, k + 1);
        assert(one@ =~= seq![value@[k as int]]);
        let w = text_width(one);
        if w > 0 && (width > max_width || w > max_width - width) {
            assert(fit_count(value@, max_width, k as int) == k);
            proof {
                lemma_fit_count_bounds(value@, max_width, 0);
            }
            return String::from_str(value.substring_char(0, k));
        }
        width = width.saturating_add(w);
        k += 1;
    }
    proof {
        lemma_fit_count_bounds(value@, max_width, 0);
    }
    String::from_str(value.substring_char(0, k))
}

/// A title with a space on each side, cut to `max_width` cells; empty when no cell is left.
pub open spec fn spec_bounded_title(title: Seq<char>, max_width: usize) -> Seq<char> {
    let padded = seq![' '] + title + seq![' '];
    if max_width == 0 {
        Seq::empty()
    } else if display_width(padded) as int > max_width as int {
        spec_truncate_cells(padded, max_width)
    } else {
        padded
    }
}

pub fn bounded_title(title: &str, max_width: usize) -> (r: String)
    ensures
        r@ == spec_bounded_title(title@, max_width),
{
    if max_width == 0 {
        return String::new();
    }
    let mut value = String::from_str(" ");
    value.append(title);
    value.append(" ");
    proof {
        reveal_strlit(" ");
    }
    assert(value@ =~= seq![' '] + title@ + seq![' ']);
    if text_width(value.as_str()) > max_width {
        truncate_cells(value.as_str(), max_width)
    } else {
        value
    }
}


/// The decimal digit of `d` (0 to 9).
pub open spec fn digit(d: nat) -> char {
    if d == 0 { '0' } else if d == 1 { '1' } else if d == 2 { '2' } else if d == 3 { '3' }
    else if d == 4 { '4' } else if d == 5 { '5' } else if d == 6 { '6' } else if d == 7 { '7' }
    else if d == 8 { '8' } else { '9' }
}

/// `n` written in decimal.
pub open spec fn decimal(n: nat) -> Seq<char>
    decreases n,
{
    if n < 10 {
        seq![digit(n)]
    } else {
        decimal(n / 10).push(digit(n % 10))
    }
}

/// The count of chosen rows as shown: the decimal digits of `n` followed by `" selected"`.
pub(crate) fn count_selected_text(n: usize) -> (r: String)
    ensures
        r@ == decimal(n as nat) + " selected"@,
{
    let mut s = String::new();
    push_decimal(&mut s, n);
    push_text(&mut s, " selected");
    assert(s@ =~= decimal(n as nat) + " selected"@);
    s
}

broadcast use vstd::string::axiom_spec_iter;

/// The characters of `text`, in order.
pub fn chars_of(text: &str) -> (r: Vec<char>)
    ensures
        r@ == text@,
{
    let mut out: Vec<char> = Vec::new();
    for c in it: text.chars()
        invariant
            out@ == it.seq().take(it.index() as int),
    {
        out.push(c);
    }
    assert(out@ =~= text@);
    out
}

/// Calls std's `String::push`, which appends one character.
#[verifier::external_body]
pub(crate) fn push_char(s: &mut String, c: char)
    ensures
        final(s)@ == old(s)@.push(c),
{
    s.push(c);
}

/// A string holding `chars`.
pub fn string_of(chars: &Vec<char>, from: usize, to: usize) -> (r: String)
    requires
        from <= to <= chars.len(),
    ensures
        r@ == chars@.subrange(from as int, to as int),
{
    let mut s = String::new();
    let mut k = from;
    while k < to
        invariant
            from <= k <= to <= chars.len(),
            s@ == chars@.subrange(from as int, k as int),
        decreases to - k,
    {
        push_char(&mut s, chars[k]);
        assert(s@ =~= chars@.subrange(from as int, k + 1));
        k += 1;
    }
    s
}

/// `n` spaces.
pub open spec fn spaces(n: nat) -> Seq<char> {
    Seq::new(n, |_i: int| ' ')
}

/// `t` with spaces in front up to `w` characters.
pub open spec fn pad_left(t: Seq<char>, w: nat) -> Seq<char> {
    if t.len() >= w {
        t
    } else {
        spaces((w - t.len()) as nat) + t
    }
}

/// The line number `n` right-aligned in `w` characters.
pub open spec fn number(n: nat, w: nat) -> Seq<char> {
    pad_left(decimal(n), w)
}

pub(crate) fn digit_char(d: usize) -> (c: char)
    requires
        d < 10,
    ensures
        c == digit(d as nat),
{
    if d == 0 { '0' } else if d == 1 { '1' } else if d == 2 { '2' } else if d == 3 { '3' }
    else if d == 4 { '4' } else if d == 5 { '5' } else if d == 6 { '6' } else if d == 7 { '7' }
    else if d == 8 { '8' } else { '9' }
}

pub(crate) fn push_decimal(out: &mut String, n: usize)
    ensures
        final(out)@ == old(out)@ + decimal(n as nat),
    decreases n,
{
    if n >= 10 {
        push_decimal(out, n / 10);
    }
    push_char(out, digit_char(n % 10));
    assert(final(out)@ =~= old(out)@ + decimal(n as nat)) by {
        if n >= 10 {
            assert(decimal(n as nat) == decimal((n / 10) as nat).push(digit((n % 10) as nat)));
        }
    }
}

pub(crate) fn decimal_len(n: usize) -> (r: usize)
    ensures
        r == decimal(n as nat).len(),
    decreases n,
{
    if n >= 10 {
        let k = decimal_len(n / 10);
        proof {
            lemma_decimal_len((n / 10) as nat);
        }
        k + 1
    } else {
        1
    }
}

pub proof fn lemma_decimal_len(n: nat)
    ensures
        1 <= decimal(n).len() <= n + 1,
    decreases n,
{
    if n >= 10 {
        lemma_decimal_len(n / 10);
    }
}

pub(crate) fn push_spaces(out: &mut String, n: usize)
    ensures
        final(out)@ == old(out)@ + spaces(n as nat),
{
    let mut k: usize = 0;
    while k < n
        invariant
            k <= n,
            out@ == old(out)@ + spaces(k as nat),
        decreases n - k,
    {
        push_char(out, ' ');
        assert(out@ =~= old(out)@ + spaces((k + 1) as nat));
        k += 1;
    }
}

pub(crate) fn push_number(out: &mut String, n: usize, w: usize)
    ensures
        final(out)@ == old(out)@ + number(n as nat, w as nat),
{
    let len = decimal_len(n);
    if len < w {
        push_spaces(out, w - len);
    }
    push_decimal(out, n);
    assert(final(out)@ =~= old(out)@ + number(n as nat, w as nat));
}

/// Appends the characters of `s`.
pub(crate) fn push_text(out: &mut String, s: &str)
    ensures
        final(out)@ == old(out)@ + s@,
{
    out.append(s);
}


} // verus!
