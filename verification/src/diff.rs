//! Positional comparison of two token sequences.
//!
//! Tokens are paired index by index. Nothing is realigned: a token that is
//! inserted or removed shifts every later pair, and the shifted pairs are
//! reported as changes.

use crate::colors::{colored, colorize, Color};
use crate::text::{lines, lines_of, words, words_of};
use vstd::prelude::*;
use vstd::string::{StrSliceExecFns, StringExecFns};

verus! {

/// One outcome of comparing two token sequences at one position.
#[derive(Debug, Clone, PartialEq, Eq)]
pub enum DiffOp {
    /// A token that only the second sequence has at this position.
    Add(String),
    /// A token that only the first sequence has at this position.
    Remove(String),
    /// The tokens of the first and the second sequence differ here.
    Change(String, String),
    /// Both sequences hold this token here.
    Unchanged(String),
}

/// The mathematical value of a `DiffOp`: the same variants over character
/// sequences.
pub enum Edit {
    Add(Seq<char>),
    Remove(Seq<char>),
    Change(Seq<char>, Seq<char>),
    Unchanged(Seq<char>),
}

impl View for DiffOp {
    type V = Edit;

    open spec fn view(&self) -> Edit {
        match self {
            DiffOp::Add(t) => Edit::Add(t@),
            DiffOp::Remove(t) => Edit::Remove(t@),
            DiffOp::Change(o, n) => Edit::Change(o@, n@),
            DiffOp::Unchanged(t) => Edit::Unchanged(t@),
        }
    }
}

impl DeepView for DiffOp {
    type V = Edit;

    open spec fn deep_view(&self) -> Edit {
        self@
    }
}

impl Edit {
    /// The token of the first sequence that the edit speaks of, if any.
    pub open spec fn old_side(self) -> Option<Seq<char>> {
        match self {
            Edit::Add(_) => None,
            Edit::Remove(t) => Some(t),
            Edit::Change(o, _) => Some(o),
            Edit::Unchanged(t) => Some(t),
        }
    }

    /// The token of the second sequence that the edit speaks of, if any.
    pub open spec fn new_side(self) -> Option<Seq<char>> {
        match self {
            Edit::Add(t) => Some(t),
            Edit::Remove(_) => None,
            Edit::Change(_, n) => Some(n),
            Edit::Unchanged(t) => Some(t),
        }
    }

    /// The edit as one line of a report, without a line terminator: a
    /// marker, a space, and the token or tokens. A token that was added
    /// is green, one that was removed is red, one that is unchanged has
    /// no colour.
    pub open spec fn rendered(self) -> Seq<char> {
        match self {
            Edit::Add(t) => seq!['+', ' '] + colored(t, Color::Green),
            Edit::Remove(t) => seq!['-', ' '] + colored(t, Color::Red),
            Edit::Change(o, n) => seq!['~', ' '] + colored(o, Color::Red) + seq![' ', '-', '>', ' ']
                + colored(n, Color::Green),
            Edit::Unchanged(t) => seq![' ', ' '] + t,
        }
    }
}

impl DiffOp {
    /// The operation as one line of a report, without a line terminator.
    pub fn to_string(&self) -> (line: String)
        ensures
            line@ == self@.rendered(),
    {
        proof {
            reveal_strlit("+ ");
            reveal_strlit("- ");
            reveal_strlit("~ ");
            reveal_strlit(" -> ");
            reveal_strlit("  ");
        }
        let mut line = String::new();
        match self {
            DiffOp::Add(t) => {
                line.append("+ ");
                line.append(colorize(t.as_str(), Color::Green).as_str());
            },
            DiffOp::Remove(t) => {
                line.append("- ");
                line.append(colorize(t.as_str(), Color::Red).as_str());
            },
            DiffOp::Change(o, n) => {
                line.append("~ ");
                line.append(colorize(o.as_str(), Color::Red).as_str());
                line.append(" -> ");
                line.append(colorize(n.as_str(), Color::Green).as_str());
            },
            DiffOp::Unchanged(t) => {
                line.append("  ");
                line.append(t.as_str());
            },
        }
        assert(line@ =~= self@.rendered());
        line
    }
}

/// The edit at position `k` of the comparison of `a` with `b`, for
/// `0 <= k < max(a.len(), b.len())`.
pub open spec fn edit_at(a: Seq<Seq<char>>, b: Seq<Seq<char>>, k: int) -> Edit {
    if k < a.len() && k < b.len() {
        if a[k] == b[k] {
            Edit::Unchanged(a[k])
        } else {
            Edit::Change(a[k], b[k])
        }
    } else if k < a.len() {
        Edit::Remove(a[k])
    } else {
        Edit::Add(b[k])
    }
}

/// The comparison of `a` with `b`: one edit for each position that either
/// sequence has, in order.
pub open spec fn edits(a: Seq<Seq<char>>, b: Seq<Seq<char>>) -> Seq<Edit> {
    Seq::new(
        if a.len() >= b.len() {
            a.len()
        } else {
            b.len()
        },
        |k: int| edit_at(a, b, k),
    )
}

/// The tokens of the first sequence that `ops` speaks of, in order.
pub open spec fn old_tokens(ops: Seq<Edit>) -> Seq<Seq<char>>
    decreases ops.len(),
{
    if ops.len() == 0 {
        Seq::empty()
    } else {
        match ops.last().old_side() {
            Some(t) => old_tokens(ops.drop_last()).push(t),
            None => old_tokens(ops.drop_last()),
        }
    }
}

/// The tokens of the second sequence that `ops` speaks of, in order.
pub open spec fn new_tokens(ops: Seq<Edit>) -> Seq<Seq<char>>
    decreases ops.len(),
{
    if ops.len() == 0 {
        Seq::empty()
    } else {
        match ops.last().new_side() {
            Some(t) => new_tokens(ops.drop_last()).push(t),
            None => new_tokens(ops.drop_last()),
        }
    }
}

/// Compares two token sequences position by position.
pub fn compare(tokens_a: &[String], tokens_b: &[String]) -> (ops: Vec<DiffOp>)
    ensures
        ops.deep_view() == edits(tokens_a.deep_view(), tokens_b.deep_view()),
{
    let ghost a = tokens_a.deep_view();
    let ghost b = tokens_b.deep_view();
    let mut ops: Vec<DiffOp> = Vec::new();
    let mut i: usize = 0;
    let mut j: usize = 0;
    while i < tokens_a.len() || j < tokens_b.len()
        invariant
            a == tokens_a.deep_view(),
            b == tokens_b.deep_view(),
            i <= tokens_a.len(),
            j <= tokens_b.len(),
            i == j || (i == tokens_a.len() && i < j) || (j == tokens_b.len() && j < i),
            ops.len() == (if i >= j { i } else { j }),
            forall|k: int| 0 <= k < ops.len() ==> (#[trigger] ops[k])@ == edit_at(a, b, k),
        decreases (tokens_a.len() - i) + (tokens_b.len() - j),
    {
        if i < tokens_a.len() && j < tokens_b.len() {
            assert(a[i as int] == tokens_a[i as int]@);
            assert(b[j as int] == tokens_b[j as int]@);
            if tokens_a[i] == tokens_b[j] {
                ops.push(DiffOp::Unchanged(tokens_a[i].clone()));
            } else {
                ops.push(DiffOp::Change(tokens_a[i].clone(), tokens_b[j].clone()));
            }
            i += 1;
            j += 1;
        } else if i < tokens_a.len() {
            assert(a[i as int] == tokens_a[i as int]@);
            ops.push(DiffOp::Remove(tokens_a[i].clone()));
            i += 1;
        } else {
            assert(b[j as int] == tokens_b[j as int]@);
            ops.push(DiffOp::Add(tokens_b[j].clone()));
            j += 1;
        }
    }
    assert(ops.deep_view() =~= edits(a, b));
    ops
}

/// The first `n` edits of a comparison speak of the first `n` tokens of
/// the first sequence, or of all of them where it has fewer.
proof fn lemma_old_tokens_prefix(a: Seq<Seq<char>>, b: Seq<Seq<char>>, n: int)
    requires
        0 <= n <= edits(a, b).len(),
    ensures
        old_tokens(edits(a, b).take(n)) == a.take(if n <= a.len() { n } else { a.len() as int }),
    decreases n,
{
    let ops = edits(a, b).take(n);
    if n == 0 {
        assert(a.take(0) =~= Seq::<Seq<char>>::empty());
    } else {
        lemma_old_tokens_prefix(a, b, n - 1);
        assert(ops.drop_last() =~= edits(a, b).take(n - 1));
        assert(ops.last() == edit_at(a, b, n - 1));
        if n <= a.len() {
            assert(a.take(n) =~= a.take(n - 1).push(a[n - 1]));
        }
    }
}

/// The first `n` edits of a comparison speak of the first `n` tokens of
/// the second sequence, or of all of them where it has fewer.
proof fn lemma_new_tokens_prefix(a: Seq<Seq<char>>, b: Seq<Seq<char>>, n: int)
    requires
        0 <= n <= edits(a, b).len(),
    ensures
        new_tokens(edits(a, b).take(n)) == b.take(if n <= b.len() { n } else { b.len() as int }),
    decreases n,
{
    let ops = edits(a, b).take(n);
    if n == 0 {
        assert(b.take(0) =~= Seq::<Seq<char>>::empty());
    } else {
        lemma_new_tokens_prefix(a, b, n - 1);
        assert(ops.drop_last() =~= edits(a, b).take(n - 1));
        assert(ops.last() == edit_at(a, b, n - 1));
        if n <= b.len() {
            assert(b.take(n) =~= b.take(n - 1).push(b[n - 1]));
        }
    }
}

/// A comparison loses nothing: the old sides of its edits, read in order,
/// are the first sequence, and the new sides are the second.
pub proof fn lemma_edits_reconstruct(a: Seq<Seq<char>>, b: Seq<Seq<char>>)
    ensures
        old_tokens(edits(a, b)) == a,
        new_tokens(edits(a, b)) == b,
{
    let ops = edits(a, b);
    lemma_old_tokens_prefix(a, b, ops.len() as int);
    lemma_new_tokens_prefix(a, b, ops.len() as int);
    assert(ops.take(ops.len() as int) =~= ops);
    assert(a.take(a.len() as int) =~= a);
    assert(b.take(b.len() as int) =~= b);
}

/// A comparison has one edit for each position of the longer sequence:
/// one for each pair of tokens that face each other, and one for each
/// token that the longer sequence has beyond the shorter.
pub proof fn lemma_edits_len(a: Seq<Seq<char>>, b: Seq<Seq<char>>)
    ensures
        edits(a, b).len() == (if a.len() >= b.len() { a.len() } else { b.len() }),
        forall|k: int|
            0 <= k < a.len() && k < b.len() ==> {
                ||| #[trigger] edits(a, b)[k] == Edit::Unchanged(a[k])
                ||| edits(a, b)[k] == Edit::Change(a[k], b[k])
            },
        forall|k: int| b.len() <= k < a.len() ==> #[trigger] edits(a, b)[k] == Edit::Remove(a[k]),
        forall|k: int| a.len() <= k < b.len() ==> #[trigger] edits(a, b)[k] == Edit::Add(b[k]),
{
}

/// Comparing a sequence with itself reports every token as unchanged, in
/// order.
pub proof fn lemma_edits_of_equal(a: Seq<Seq<char>>)
    ensures
        edits(a, a) == a.map_values(|t: Seq<char>| Edit::Unchanged(t)),
{
    assert(edits(a, a) =~= a.map_values(|t: Seq<char>| Edit::Unchanged(t)));
}

/// Comparing with nothing: every token of the one sequence that there
/// is gets removed, or added.
pub proof fn lemma_edits_with_empty(a: Seq<Seq<char>>)
    ensures
        edits(a, Seq::empty()) == a.map_values(|t: Seq<char>| Edit::Remove(t)),
        edits(Seq::empty(), a) == a.map_values(|t: Seq<char>| Edit::Add(t)),
{
    assert(edits(a, Seq::empty()) =~= a.map_values(|t: Seq<char>| Edit::Remove(t)));
    assert(edits(Seq::empty(), a) =~= a.map_values(|t: Seq<char>| Edit::Add(t)));
}

/// The comparison does not realign. Where the second sequence is the
/// first with one token put in front, every token of the first is paired
/// with the one that stood before it, the first of them with the new
/// token, and the last token is reported as added.
pub proof fn lemma_edits_after_insertion_in_front(a: Seq<Seq<char>>, z: Seq<char>)
    ensures
        edits(a, seq![z] + a).len() == a.len() + 1,
        forall|k: int|
            0 <= k < a.len() ==> #[trigger] edits(a, seq![z] + a)[k] == (if k == 0 {
                if a[0] == z {
                    Edit::Unchanged(a[0])
                } else {
                    Edit::Change(a[0], z)
                }
            } else {
                if a[k] == a[k - 1] {
                    Edit::Unchanged(a[k])
                } else {
                    Edit::Change(a[k], a[k - 1])
                }
            }),
        edits(a, seq![z] + a).last() == Edit::Add(if a.len() == 0 { z } else { a.last() }),
{
}

/// Compares two texts line by line.
pub fn diff_lines(a: &str, b: &str) -> (ops: Vec<DiffOp>)
    ensures
        ops.deep_view() == edits(lines_of(a@), lines_of(b@)),
{
    let a_lines = lines(a);
    let b_lines = lines(b);
    compare(a_lines.as_slice(), b_lines.as_slice())
}

/// Compares two texts word by word.
pub fn diff_words(a: &str, b: &str) -> (ops: Vec<DiffOp>)
    ensures
        ops.deep_view() == edits(words_of(a@), words_of(b@)),
{
    let a_words = words(a);
    let b_words = words(b);
    compare(a_words.as_slice(), b_words.as_slice())
}

/// The header line of a report on two files, without its line feed.
pub open spec fn report_header(file_a: Seq<char>, file_b: Seq<char>) -> Seq<char> {
    seq!['D', 'i', 'f', 'f', ' ', 'b', 'e', 't', 'w', 'e', 'e', 'n', ' ', '`'] + file_a
        + seq!['`', ' ', 'a', 'n', 'd', ' ', '`'] + file_b + seq!['`']
}

/// A rule of `width` dashes, with its line feed.
pub open spec fn report_rule(width: nat) -> Seq<char> {
    Seq::new(width, |i: int| '-').push('\n')
}

/// The edits as lines of a report, each with its line feed, in order.
pub open spec fn report_body(ops: Seq<Edit>) -> Seq<char>
    decreases ops.len(),
{
    if ops.len() == 0 {
        Seq::empty()
    } else {
        report_body(ops.drop_last()) + ops.last().rendered().push('\n')
    }
}

/// The report on the comparison `ops` of two files: a rule, the header
/// that names the files, the rule again, the edits, and the rule once
/// more, each on a line of its own. The rule has as many dashes as the
/// header line has characters, its line feed not counted.
pub open spec fn report(file_a: Seq<char>, file_b: Seq<char>, ops: Seq<Edit>) -> Seq<char> {
    let header = report_header(file_a, file_b);
    let rule = report_rule(header.len());
    rule + header.push('\n') + rule + report_body(ops) + rule
}

/// A report opens with its rule: as many dashes as the header line has
/// characters, which is 22 and the lengths of the two names, and then a
/// line feed. The header line follows.
pub proof fn lemma_report_opens_with_rule(file_a: Seq<char>, file_b: Seq<char>, ops: Seq<Edit>)
    ensures
        report_header(file_a, file_b).len() == 22 + file_a.len() + file_b.len(),
        report(file_a, file_b, ops).len() >= 2 * report_header(file_a, file_b).len() + 2,
        forall|i: int|
            0 <= i < report_header(file_a, file_b).len() ==> #[trigger] report(
                file_a,
                file_b,
                ops,
            )[i] == '-',
        report(file_a, file_b, ops)[report_header(file_a, file_b).len() as int] == '\n',
        forall|i: int|
            0 <= i < report_header(file_a, file_b).len() ==> #[trigger] report(
                file_a,
                file_b,
                ops,
            )[report_header(file_a, file_b).len() + 1 + i] == report_header(file_a, file_b)[i],
{
}

/// A rule of `width` dashes, with its line feed.
fn rule_line(width: usize) -> (rule: String)
    ensures
        rule@ == report_rule(width as nat),
{
    let mut rule = String::new();
    let mut n: usize = 0;
    while n < width
        invariant
            n <= width,
            rule@ == Seq::new(n as nat, |i: int| '-'),
        decreases width - n,
    {
        rule.push('-');
        n += 1;
        assert(rule@ =~= Seq::new(n as nat, |i: int| '-'));
    }
    rule.push('\n');
    rule
}

/// The report on the line-by-line comparison of two files, from their
/// names and their contents.
pub fn diff_report(file_a: &str, file_b: &str, content_a: &str, content_b: &str) -> (out: String)
    ensures
        out@ == report(file_a@, file_b@, edits(lines_of(content_a@), lines_of(content_b@))),
{
    let ops = diff_lines(content_a, content_b);
    proof {
        reveal_strlit("Diff between `");
        reveal_strlit("` and `");
        reveal_strlit("`");
        reveal_strlit("\n");
    }
    let mut header = String::new();
    header.append("Diff between `");
    header.append(file_a);
    header.append("` and `");
    header.append(file_b);
    header.append("`");
    assert(header@ =~= report_header(file_a@, file_b@));
    let rule = rule_line(header.as_str().unicode_len());
    header.append("\n");
    let mut out = String::new();
    out.append(rule.as_str());
    out.append(header.as_str());
    out.append(rule.as_str());
    let ghost top = out@;
    let mut k: usize = 0;
    while k < ops.len()
        invariant
            k <= ops.len(),
            out@ == top + report_body(ops.deep_view().take(k as int)),
        decreases ops.len() - k,
    {
        let line = ops[k].to_string();
        out.append(line.as_str());
        out.append("\n");
        k += 1;
        proof {
            reveal_strlit("\n");
            let done = ops.deep_view().take(k as int);
            assert(done.drop_last() =~= ops.deep_view().take(k - 1));
            assert(done.last() == ops[k - 1]@);
            assert(out@ =~= top + report_body(done));
        }
    }
    assert(ops.deep_view().take(ops.len() as int) =~= ops.deep_view());
    out.append(rule.as_str());
    assert(out@ =~= report(file_a@, file_b@, ops.deep_view()));
    out
}

} // verus!