//! The counters and the text of a progress indicator that is redrawn on
//! one terminal line.
//!
//! Only what is exact stands here: the position in the run, and the line
//! that shows it. How many cells of the bar are filled and how fast the
//! run goes are measured by the caller, who hands them in.

use vstd::prelude::*;
use vstd::string::{StrSliceExecFns, StringExecFns};

verus! {

/// The decimal digit that stands for `d`, for `d < 10`.
pub open spec fn digit(d: nat) -> char {
    if d == 0 {
        '0'
    } else if d == 1 {
        '1'
    } else if d == 2 {
        '2'
    } else if d == 3 {
        '3'
    } else if d == 4 {
        '4'
    } else if d == 5 {
        '5'
    } else if d == 6 {
        '6'
    } else if d == 7 {
        '7'
    } else if d == 8 {
        '8'
    } else {
        '9'
    }
}

/// `n` in decimal, without leading zeros.
pub open spec fn decimal(n: nat) -> Seq<char>
    decreases n,
{
    if n < 10 {
        seq![digit(n)]
    } else {
        decimal(n / 10).push(digit(n % 10))
    }
}

/// `s` written `n` times in a row.
pub open spec fn repeated(s: Seq<char>, n: nat) -> Seq<char>
    decreases n,
{
    if n == 0 {
        Seq::empty()
    } else {
        repeated(s, (n - 1) as nat) + s
    }
}

/// `current` in decimal, with spaces in front of it up to the width that
/// `total` has in decimal. Defined where `current` is not the wider one.
pub open spec fn padded_count(current: nat, total: nat) -> Seq<char> {
    repeated(seq![' '], (decimal(total).len() - decimal(current).len()) as nat) + decimal(
        current,
    )
}

/// A number in decimal has at least one digit, and a smaller number has
/// no more digits than a greater one.
pub proof fn lemma_decimal_len(m: nat, n: nat)
    requires
        m <= n,
    ensures
        1 <= decimal(m).len() <= decimal(n).len(),
    decreases n,
{
    if n >= 10 {
        if m >= 10 {
            lemma_decimal_len(m / 10, n / 10);
        } else {
            lemma_decimal_len(0, n / 10);
        }
    }
}

/// The state of a progress indicator: how far the run is, and how the bar
/// is drawn.
#[derive(Debug, Clone)]
pub struct ProgressBar {
    /// The number of cells of the bar.
    pub bar_width: usize,
    /// The number of items that have been taken so far.
    pub current: usize,
    /// The number of items that the run is expected to have.
    pub total: usize,
    /// What a filled cell shows.
    pub prog_char: String,
    /// What an empty cell shows.
    pub empty_char: String,
    /// What the items are called in the rate.
    pub unit: String,
}

impl Default for ProgressBar {
    /// A bar of 50 cells for a run of 100 items, of which none is taken,
    /// drawn with block glyphs and counting "iter".
    fn default() -> (bar: ProgressBar)
        ensures
            bar.bar_width == 50,
            bar.current == 0,
            bar.total == 100,
            bar.prog_char@ == seq!['\u{2588}'],
            bar.empty_char@ == seq!['\u{2591}'],
            bar.unit@ == seq!['i', 't', 'e', 'r'],
    {
        proof {
            reveal_strlit("\u{2588}");
            reveal_strlit("\u{2591}");
            reveal_strlit("iter");
        }
        let bar = ProgressBar {
            bar_width: 50,
            current: 0,
            total: 100,
            prog_char: "\u{2588}".to_owned(),
            empty_char: "\u{2591}".to_owned(),
            unit: "iter".to_owned(),
        };
        assert(bar.prog_char@ =~= seq!['\u{2588}']);
        assert(bar.empty_char@ =~= seq!['\u{2591}']);
        assert(bar.unit@ =~= seq!['i', 't', 'e', 'r']);
        bar
    }
}

/// The decimal digit that stands for `d`.
fn digit_char(d: usize) -> (c: char)
    requires
        d < 10,
    ensures
        c == digit(d as nat),
{
    match d {
        0 => '0',
        1 => '1',
        2 => '2',
        3 => '3',
        4 => '4',
        5 => '5',
        6 => '6',
        7 => '7',
        8 => '8',
        _ => '9',
    }
}

/// Appends `n` in decimal to `out`.
fn push_decimal(out: &mut String, n: usize)
    ensures
        final(out)@ == old(out)@ + decimal(n as nat),
    decreases n,
{
    if n >= 10 {
        push_decimal(out, n / 10);
    }
    out.push(digit_char(n % 10));
    assert(out@ =~= old(out)@ + decimal(n as nat));
}

/// Appends `s` to `out`, `n` times.
fn push_repeated(out: &mut String, s: &str, n: usize)
    ensures
        final(out)@ == old(out)@ + repeated(s@, n as nat),
{
    let mut k: usize = 0;
    assert(out@ =~= old(out)@ + repeated(s@, 0));
    while k < n
        invariant
            k <= n,
            out@ == old(out)@ + repeated(s@, k as nat),
        decreases n - k,
    {
        out.append(s);
        k += 1;
        assert(out@ =~= old(out)@ + repeated(s@, k as nat));
    }
}

impl ProgressBar {
    /// The progress line for this state: a carriage return, the bar with
    /// `filled` of its cells filled, the padded count and the total in
    /// square brackets, and the rate with its unit.
    pub open spec fn line(self, filled: nat, rate: Seq<char>) -> Seq<char> {
        seq!['\r'] + repeated(self.prog_char@, filled) + repeated(
            self.empty_char@,
            (self.bar_width - filled) as nat,
        ) + seq![' ', '['] + padded_count(self.current as nat, self.total as nat) + seq!['/']
            + decimal(self.total as nat) + seq![']', ' '] + rate + seq![' '] + self.unit@
            + seq!['(', 's', ')', '/', 's']
    }

    /// The count of items taken, in decimal, with spaces in front of it
    /// up to the width of the total.
    pub fn get_current_prog_as_string(&self) -> (text: String)
        requires
            decimal(self.current as nat).len() <= decimal(self.total as nat).len(),
        ensures
            text@ == padded_count(self.current as nat, self.total as nat),
    {
        let mut total = String::new();
        push_decimal(&mut total, self.total);
        let mut current = String::new();
        push_decimal(&mut current, self.current);
        assert(total@ =~= decimal(self.total as nat));
        assert(current@ =~= decimal(self.current as nat));
        let pad = total.as_str().unicode_len() - current.as_str().unicode_len();
        let mut text = String::new();
        push_repeated(&mut text, " ", pad);
        text.append(current.as_str());
        proof {
            reveal_strlit(" ");
            assert(" "@ =~= seq![' ']);
            assert(text@ =~= padded_count(self.current as nat, self.total as nat));
        }
        text
    }

    /// Counts one more item as taken, and says whether it is the first of
    /// the run.
    pub fn step(&mut self) -> (first: bool)
        requires
            old(self).current < usize::MAX,
        ensures
            first == (old(self).current == 0),
            final(self).current == old(self).current + 1,
            final(self).bar_width == old(self).bar_width,
            final(self).total == old(self).total,
            final(self).prog_char == old(self).prog_char,
            final(self).empty_char == old(self).empty_char,
            final(self).unit == old(self).unit,
    {
        let first = self.current == 0;
        self.current = self.current + 1;
        first
    }

    /// The progress line for this state, with `filled` cells of the bar
    /// filled and `rate` as the text of the rate.
    pub fn render(&self, filled: usize, rate: &str) -> (text: String)
        requires
            filled <= self.bar_width,
            decimal(self.current as nat).len() <= decimal(self.total as nat).len(),
        ensures
            text@ == self.line(filled as nat, rate@),
    {
        proof {
            reveal_strlit("\r");
            reveal_strlit(" [");
            reveal_strlit("/");
            reveal_strlit("] ");
            reveal_strlit(" ");
            reveal_strlit("(s)/s");
        }
        let mut text = String::new();
        text.append("\r");
        push_repeated(&mut text, self.prog_char.as_str(), filled);
        push_repeated(&mut text, self.empty_char.as_str(), self.bar_width - filled);
        text.append(" [");
        text.append(self.get_current_prog_as_string().as_str());
        text.append("/");
        push_decimal(&mut text, self.total);
        text.append("] ");
        text.append(rate);
        text.append(" ");
        text.append(self.unit.as_str());
        text.append("(s)/s");
        assert(text@ =~= self.line(filled as nat, rate@));
        text
    }
}

} // verus!
