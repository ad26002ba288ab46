//! Small verified helpers on strings, shared by the other modules.

use vstd::prelude::*;

verus! {

/// Whether two string slices hold the same characters.
///
/// The slices are compared byte by byte; UTF-8 encodes each character
/// sequence in exactly one way, so equal bytes mean equal characters.
pub fn str_eq(a: &str, b: &str) -> (same: bool)
    ensures
        same == (a@ == b@),
{
    let x = a.as_bytes();
    let y = b.as_bytes();
    proof {
        vstd::utf8::encode_utf8_decode_utf8(a@);
        vstd::utf8::encode_utf8_decode_utf8(b@);
    }
    if x.len() != y.len() {
        return false;
    }
    let mut i: usize = 0;
    while i < x.len()
        invariant
            i <= x.len(),
            x.len() == y.len(),
            forall|k: int| 0 <= k < i ==> x@[k] == y@[k],
            x@ == vstd::utf8::encode_utf8(a@),
            y@ == vstd::utf8::encode_utf8(b@),
            vstd::utf8::decode_utf8(x@) == a@,
            vstd::utf8::decode_utf8(y@) == b@,
        decreases x.len() - i,
    {
        if x[i] != y[i] {
            return false;
        }
        i += 1;
    }
    assert(x@ =~= y@);
    true
}

/// Whether a character has the Unicode property `White_Space`: the
/// controls from tab to carriage return, the space, the next-line
/// control, the no-break space, the Ogham space mark, the spaces of fixed
/// width from en quad to hair space, the line and the paragraph
/// separator, the narrow no-break space, the medium mathematical space
/// and the ideographic space.
pub open spec fn has_white_space(c: char) -> bool {
    let n: u32 = c as u32;
    ||| 0x0009 <= n <= 0x000D
    ||| n == 0x0020
    ||| n == 0x0085
    ||| n == 0x00A0
    ||| n == 0x1680
    ||| 0x2000 <= n <= 0x200A
    ||| n == 0x2028
    ||| n == 0x2029
    ||| n == 0x202F
    ||| n == 0x205F
    ||| n == 0x3000
}

/// `char::is_whitespace` says whether the character has the Unicode
/// property `White_Space`.
pub assume_specification[ char::is_whitespace ](c: char) -> (white: bool)
    ensures
        white == has_white_space(c),
;

/// `String::push` appends the character to the end of the string.
pub assume_specification[ String::push ](s: &mut String, c: char)
    ensures
        final(s)@ == old(s)@.push(c),
;

/// The pieces into which the separators cut `s`: what stands before the
/// first separator, between each two that follow each other, and behind
/// the last. There is one piece more than there are separators, and a
/// piece is empty where nothing stands between two cuts.
pub open spec fn pieces(s: Seq<char>, sep: spec_fn(char) -> bool) -> Seq<Seq<char>>
    decreases s.len(),
{
    if s.len() == 0 {
        seq![Seq::empty()]
    } else {
        let before = pieces(s.drop_last(), sep);
        if sep(s.last()) {
            before.push(Seq::empty())
        } else {
            before.drop_last().push(before.last().push(s.last()))
        }
    }
}

/// The separator of lines: the line feed.
pub open spec fn line_feed() -> spec_fn(char) -> bool {
    |c: char| c == '\n'
}

/// The separators of words: the whitespace characters.
pub open spec fn whitespace() -> spec_fn(char) -> bool {
    |c: char| has_white_space(c)
}

/// The pieces that are not empty, in order.
pub open spec fn keep_nonempty(p: Seq<Seq<char>>) -> Seq<Seq<char>> {
    p.filter(|w: Seq<char>| w.len() > 0)
}

/// `line` without the carriage return at its end, if it ends in one.
pub open spec fn without_cr(line: Seq<char>) -> Seq<char> {
    if line.len() > 0 && line.last() == '\r' {
        line.drop_last()
    } else {
        line
    }
}

/// The words of `s`: the maximal runs of characters that are not
/// whitespace, in order. No word is empty.
pub open spec fn words_of(s: Seq<char>) -> Seq<Seq<char>> {
    keep_nonempty(pieces(s, whitespace()))
}

/// The lines of `s`. A line ends at a line feed, or at the end of the
/// text. The line feed is not part of the line, nor is a carriage return
/// that stands directly before it. After the last line feed a line is
/// counted only if it is not empty.
pub open spec fn lines_of(s: Seq<char>) -> Seq<Seq<char>> {
    let p = pieces(s, line_feed());
    let ended = Seq::new((p.len() - 1) as nat, |i: int| without_cr(p[i]));
    if p.last().len() > 0 {
        ended.push(p.last())
    } else {
        ended
    }
}

/// There is always at least one piece.
pub proof fn lemma_pieces_nonempty(s: Seq<char>, sep: spec_fn(char) -> bool)
    ensures
        pieces(s, sep).len() >= 1,
    decreases s.len(),
{
    if s.len() > 0 {
        lemma_pieces_nonempty(s.drop_last(), sep);
    }
}

/// No piece holds a separator.
pub proof fn lemma_pieces_hold_no_separator(s: Seq<char>, sep: spec_fn(char) -> bool)
    ensures
        forall|k: int, j: int|
            0 <= k < pieces(s, sep).len() && 0 <= j < pieces(s, sep)[k].len() ==> !sep(
                #[trigger] pieces(s, sep)[k][j],
            ),
    decreases s.len(),
{
    if s.len() > 0 {
        lemma_pieces_hold_no_separator(s.drop_last(), sep);
        lemma_pieces_nonempty(s.drop_last(), sep);
    }
}

/// What is kept of the pieces are pieces, and none of them is empty.
pub proof fn lemma_keep_nonempty(p: Seq<Seq<char>>)
    ensures
        forall|i: int|
            0 <= i < keep_nonempty(p).len() ==> (#[trigger] keep_nonempty(p)[i]).len() > 0
                && p.contains(keep_nonempty(p)[i]),
    decreases p.len(),
{
    reveal(Seq::filter);
    if p.len() > 0 {
        lemma_keep_nonempty(p.drop_last());
        let kept = keep_nonempty(p);
        let before = keep_nonempty(p.drop_last());
        assert forall|i: int| 0 <= i < kept.len() implies (#[trigger] kept[i]).len() > 0
            && p.contains(kept[i]) by {
            if i < before.len() {
                assert(kept[i] == before[i]);
                let k = choose|k: int| 0 <= k < p.drop_last().len() && p.drop_last()[k] == before[i];
                assert(p[k] == kept[i]);
            } else {
                assert(kept[i] == p.last());
                assert(p[p.len() - 1] == kept[i]);
            }
        }
    }
}

/// No word is empty, and no word holds a whitespace character.
pub proof fn lemma_words_are_solid(s: Seq<char>)
    ensures
        forall|i: int| 0 <= i < words_of(s).len() ==> (#[trigger] words_of(s)[i]).len() > 0,
        forall|i: int, j: int|
            0 <= i < words_of(s).len() && 0 <= j < words_of(s)[i].len() ==> !has_white_space(
                #[trigger] words_of(s)[i][j],
            ),
{
    let p = pieces(s, whitespace());
    lemma_keep_nonempty(p);
    lemma_pieces_hold_no_separator(s, whitespace());
    assert forall|i: int, j: int|
        0 <= i < words_of(s).len() && 0 <= j < words_of(s)[i].len() implies !has_white_space(
        #[trigger] words_of(s)[i][j],
    ) by {
        assert(p.contains(keep_nonempty(p)[i]));
        let k = choose|k: int| 0 <= k < p.len() && p[k] == words_of(s)[i];
        assert(!whitespace()(p[k][j]));
    }
}

/// No line holds a line feed.
pub proof fn lemma_lines_hold_no_line_feed(s: Seq<char>)
    ensures
        forall|i: int, j: int|
            0 <= i < lines_of(s).len() && 0 <= j < lines_of(s)[i].len() ==> #[trigger] lines_of(
                s,
            )[i][j] != '\n',
{
    let p = pieces(s, line_feed());
    lemma_pieces_nonempty(s, line_feed());
    lemma_pieces_hold_no_separator(s, line_feed());
    assert forall|i: int, j: int|
        0 <= i < lines_of(s).len() && 0 <= j < lines_of(s)[i].len() implies #[trigger] lines_of(
        s,
    )[i][j] != '\n' by {
        assert(lines_of(s)[i][j] == p[i][j]);
        assert(!line_feed()(p[i][j]));
    }
}

/// Splits a text into its words.
pub fn words(text: &str) -> (tokens: Vec<String>)
    ensures
        tokens.deep_view() == words_of(text@),
{
    let mut tokens: Vec<String> = Vec::new();
    let mut cur = String::new();
    proof {
        reveal(Seq::filter);
        assert(text@.take(0) =~= Seq::<char>::empty());
        assert(pieces(text@.take(0), whitespace()).drop_last() =~= Seq::<Seq<char>>::empty());
        assert(tokens.deep_view() =~= Seq::<Seq<char>>::empty());
    }
    for c in it: text.chars()
        invariant
            it.seq() == text@,
            tokens.deep_view() == keep_nonempty(
                pieces(text@.take(it.index()), whitespace()).drop_last(),
            ),
            cur@ == pieces(text@.take(it.index()), whitespace()).last(),
    {
        let ghost i = it.index();
        let ghost before = pieces(text@.take(i), whitespace());
        let ghost after = pieces(text@.take(i + 1), whitespace());
        let ghost done = tokens.deep_view();
        proof {
            reveal(Seq::filter);
            lemma_pieces_nonempty(text@.take(i), whitespace());
            assert(text@.take(i + 1).drop_last() =~= text@.take(i));
            assert(text@.take(i + 1).last() == c);
        }
        if c.is_whitespace() {
            assert(after == before.push(Seq::empty()));
            assert(after.drop_last() =~= before);
            if !cur.as_str().is_empty() {
                tokens.push(cur);
                cur = String::new();
                assert(tokens.deep_view() =~= done.push(before.last()));
            }
        } else {
            cur.push(c);
            assert(after.drop_last() =~= before.drop_last());
        }
    }
    proof {
        reveal(Seq::filter);
        assert(text@.take(text@.len() as int) =~= text@);
    }
    let ghost done = tokens.deep_view();
    if !cur.as_str().is_empty() {
        tokens.push(cur);
        assert(tokens.deep_view() =~= done.push(pieces(text@, whitespace()).last()));
    }
    tokens
}

/// Splits a text into its lines.
pub fn lines(text: &str) -> (tokens: Vec<String>)
    ensures
        tokens.deep_view() == lines_of(text@),
{
    let mut tokens: Vec<String> = Vec::new();
    let mut cur = String::new();
    // A carriage return has been read and not yet added to `cur`: it is
    // dropped if a line feed follows, and added if anything else does.
    let mut held_cr = false;
    proof {
        assert(text@.take(0) =~= Seq::<char>::empty());
        assert(tokens.deep_view() =~= Seq::<Seq<char>>::empty());
    }
    for c in it: text.chars()
        invariant
            it.seq() == text@,
            pieces(text@.take(it.index()), line_feed()).len() >= 1,
            tokens.deep_view().len() == pieces(text@.take(it.index()), line_feed()).len() - 1,
            forall|k: int|
                0 <= k < tokens.deep_view().len() ==> #[trigger] tokens.deep_view()[k]
                    == without_cr(pieces(text@.take(it.index()), line_feed())[k]),
            pieces(text@.take(it.index()), line_feed()).last() == (if held_cr {
                cur@.push('\r')
            } else {
                cur@
            }),
            !held_cr ==> cur@.len() == 0 || cur@.last() != '\r',
    {
        let ghost i = it.index();
        let ghost before = pieces(text@.take(i), line_feed());
        let ghost after = pieces(text@.take(i + 1), line_feed());
        let ghost done = tokens.deep_view();
        proof {
            assert(text@.take(i + 1).drop_last() =~= text@.take(i));
            assert(text@.take(i + 1).last() == c);
        }
        if c == '\n' {
            assert(after == before.push(Seq::empty()));
            assert(without_cr(before.last()) =~= cur@);
            tokens.push(cur);
            cur = String::new();
            held_cr = false;
            assert(tokens.deep_view() =~= done.push(without_cr(before.last())));
        } else {
            assert(after == before.drop_last().push(before.last().push(c)));
            if held_cr {
                cur.push('\r');
            }
            if c == '\r' {
                held_cr = true;
            } else {
                cur.push(c);
                held_cr = false;
            }
        }
    }
    proof {
        assert(text@.take(text@.len() as int) =~= text@);
    }
    let ghost done = tokens.deep_view();
    if held_cr {
        cur.push('\r');
    }
    if !cur.as_str().is_empty() {
        tokens.push(cur);
        assert(tokens.deep_view() =~= done.push(pieces(text@, line_feed()).last()));
    }
    assert(tokens.deep_view() =~= lines_of(text@));
    tokens
}

} // verus!
