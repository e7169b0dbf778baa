//! Cutting texts up and filling them out: splitting, trimming, padding, truncating.

use crate::text::{chars_of, string_of_range};
use vstd::prelude::*;

verus! {

/// The pieces of a text between the occurrences of `c`: one more than there are occurrences.
pub open spec fn pieces(s: Seq<char>, c: char) -> Seq<Seq<char>>
    decreases s.len(),
{
    if s.len() == 0 {
        seq![seq![]]
    } else {
        let before = pieces(s.drop_last(), c);
        if s.last() == c {
            before.push(seq![])
        } else {
            before.drop_last().push(before.last().push(s.last()))
        }
    }
}

/// The pieces as the strings of a vector.
pub open spec fn texts(v: Seq<String>) -> Seq<Seq<char>> {
    v.map_values(|s: String| s@)
}

proof fn lemma_pieces_not_empty(s: Seq<char>, c: char)
    ensures
        pieces(s, c).len() >= 1,
    decreases s.len(),
{
    if s.len() > 0 {
        lemma_pieces_not_empty(s.drop_last(), c);
    }
}

/// Splits a text at every occurrence of `c`.
pub fn split(s: &str, c: char) -> (out: Vec<String>)
    ensures
        texts(out@) == pieces(s@, c),
        out@.len() >= 1,
{
    let chars: Vec<char> = chars_of(s);
    let n: usize = chars.len();
    let mut out: Vec<String> = Vec::new();
    let mut from: usize = 0;
    let mut i: usize = 0;
    proof {
        assert(s@.take(0) =~= seq![]);
        assert(texts(out@).push(s@.subrange(0, 0)) =~= pieces(s@.take(0), c));
    }
    while i < n
        invariant
            from <= i <= n,
            n == chars@.len(),
            chars@ == s@,
            texts(out@).push(s@.subrange(from as int, i as int)) =~= pieces(s@.take(i as int), c),
        decreases n - i,
    {
        let ghost done = out@;
        proof {
            assert(s@.take(i + 1).drop_last() =~= s@.take(i as int));
            assert(s@.take(i + 1).last() == s@[i as int]);
            lemma_pieces_not_empty(s@.take(i as int), c);
        }
        let ghost before = pieces(s@.take(i as int), c);
        assert(before.last() == s@.subrange(from as int, i as int));
        assert(before.drop_last() =~= texts(done));
        if chars[i] == c {
            let piece: String = string_of_range(chars.as_slice(), from, i);
            out.push(piece);
            from = i + 1;
            proof {
                assert(texts(out@) =~= before);
                assert(s@.subrange(i + 1, i + 1) =~= seq![]);
            }
        } else {
            assert(s@.subrange(from as int, i + 1) =~= s@.subrange(from as int, i as int).push(
                s@[i as int],
            ));
        }
        i += 1;
    }
    let piece: String = string_of_range(chars.as_slice(), from, n);
    out.push(piece);
    proof {
        assert(s@.take(n as int) =~= s@);
        assert(texts(out@) =~= pieces(s@, c));
    }
    out
}

/// Whether a character is white space.
pub open spec fn is_space(c: char) -> bool {
    ||| '\t' <= c <= '\r'
    ||| c == ' '
    ||| c == '\u{85}'
    ||| c == '\u{a0}'
    ||| c == '\u{1680}'
    ||| '\u{2000}' <= c <= '\u{200a}'
    ||| c == '\u{2028}'
    ||| c == '\u{2029}'
    ||| c == '\u{202f}'
    ||| c == '\u{205f}'
    ||| c == '\u{3000}'
}

fn space(c: char) -> (r: bool)
    ensures
        r == is_space(c),
{
    ('\t' <= c && c <= '\r') || c == ' ' || c == '\u{85}' || c == '\u{a0}' || c == '\u{1680}' || (
    '\u{2000}' <= c && c <= '\u{200a}') || c == '\u{2028}' || c == '\u{2029}' || c == '\u{202f}'
        || c == '\u{205f}' || c == '\u{3000}'
}

/// A text without the white space at its start.
pub open spec fn trim_start(s: Seq<char>) -> Seq<char>
    decreases s.len(),
{
    if s.len() > 0 && is_space(s[0]) {
        trim_start(s.skip(1))
    } else {
        s
    }
}

/// A text without the white space at its end.
pub open spec fn trim_end(s: Seq<char>) -> Seq<char>
    decreases s.len(),
{
    if s.len() > 0 && is_space(s.last()) {
        trim_end(s.drop_last())
    } else {
        s
    }
}

/// A text without the white space at both ends.
pub open spec fn trimmed(s: Seq<char>) -> Seq<char> {
    trim_end(trim_start(s))
}

/// A trimmed text neither begins nor ends with white space, and trimming it again changes
/// nothing.
pub proof fn lemma_trimmed(s: Seq<char>)
    ensures
        trimmed(s).len() > 0 ==> !is_space(trimmed(s)[0]) && !is_space(trimmed(s).last()),
        trimmed(trimmed(s)) == trimmed(s),
{
    let a = trim_start(s);
    lemma_trim_start(s);
    lemma_trim_end(a);
    let b = trim_end(a);
    if b.len() > 0 {
        assert(b[0] == a[0]);
    }
}

proof fn lemma_trim_start(s: Seq<char>)
    ensures
        trim_start(s).len() > 0 ==> !is_space(trim_start(s)[0]),
    decreases s.len(),
{
    if s.len() > 0 && is_space(s[0]) {
        lemma_trim_start(s.skip(1));
    }
}

proof fn lemma_trim_end(s: Seq<char>)
    ensures
        trim_end(s).len() <= s.len(),
        trim_end(s).len() > 0 ==> !is_space(trim_end(s).last()) && trim_end(s)[0] == s[0],
    decreases s.len(),
{
    if s.len() > 0 && is_space(s.last()) {
        lemma_trim_end(s.drop_last());
    }
}

/// Removes the white space at both ends.
pub fn trim(s: &str) -> (out: String)
    ensures
        out@ == trimmed(s@),
{
    let chars: Vec<char> = chars_of(s);
    let n: usize = chars.len();
    let mut from: usize = 0;
    assert(s@.skip(0) =~= s@);
    while from < n && space(chars[from])
        invariant
            from <= n == chars@.len(),
            chars@ == s@,
            trim_start(s@) == trim_start(s@.skip(from as int)),
        decreases n - from,
    {
        assert(s@.skip(from as int).skip(1) =~= s@.skip(from + 1));
        from += 1;
    }
    let ghost a = s@.skip(from as int);
    assert(trim_start(s@) == a);
    let mut to: usize = n;
    assert(a.take(n - from) =~= a);
    while to > from && space(chars[to - 1])
        invariant
            from <= to <= n == chars@.len(),
            chars@ == s@,
            a == s@.skip(from as int),
            trim_end(a) == trim_end(a.take(to - from)),
        decreases to,
    {
        assert(a.take(to - from).drop_last() =~= a.take(to - from - 1));
        assert(a.take(to - from).last() == s@[to - 1]);
        to -= 1;
    }
    assert(to > from ==> a.take(to - from).last() == s@[to - 1]);
    assert(s@.subrange(from as int, to as int) =~= a.take(to - from));
    string_of_range(chars.as_slice(), from, to)
}

/// The two parts of a text around the first `c`.
pub open spec fn parted(s: Seq<char>, c: char) -> Option<(Seq<char>, Seq<char>)>
    decreases s.len(),
{
    if s.len() == 0 {
        None
    } else if s[0] == c {
        Some((seq![], s.skip(1)))
    } else {
        match parted(s.skip(1), c) {
            Some((a, b)) => Some((seq![s[0]] + a, b)),
            None => None,
        }
    }
}

proof fn lemma_parted(s: Seq<char>, c: char, i: int)
    requires
        0 <= i <= s.len(),
        forall|k: int| 0 <= k < i ==> s[k] != c,
    ensures
        i < s.len() && s[i] == c ==> parted(s, c) == Some((s.take(i), s.skip(i + 1))),
        i == s.len() ==> parted(s, c) is None,
    decreases i,
{
    if i > 0 {
        lemma_parted(s.skip(1), c, i - 1);
        if i < s.len() && s[i] == c {
            assert(seq![s[0]] + s.skip(1).take(i - 1) =~= s.take(i));
            assert(s.skip(1).skip(i) =~= s.skip(i + 1));
        }
    } else if s.len() > 0 && s[0] == c {
        assert(s.take(0) =~= seq![]);
    }
}

/// Cuts a text in two at the first `c`.
pub fn part(s: &str, c: char) -> (r: Option<(String, String)>)
    ensures
        match r {
            Some((a, b)) => parted(s@, c) == Some((a@, b@)),
            None => parted(s@, c) is None,
        },
{
    let chars: Vec<char> = chars_of(s);
    let n: usize = chars.len();
    let mut i: usize = 0;
    while i < n
        invariant
            i <= n == chars@.len(),
            chars@ == s@,
            forall|k: int| 0 <= k < i ==> s@[k] != c,
        decreases n - i,
    {
        if chars[i] == c {
            proof {
                lemma_parted(s@, c, i as int);
                assert(s@.subrange(0, i as int) =~= s@.take(i as int));
                assert(s@.subrange(i + 1, n as int) =~= s@.skip(i + 1));
            }
            return Some(
                (
                    string_of_range(chars.as_slice(), 0, i),
                    string_of_range(chars.as_slice(), i + 1, n),
                ),
            );
        }
        i += 1;
    }
    proof {
        lemma_parted(s@, c, n as int);
    }
    None
}

/// `n` spaces.
pub open spec fn blanks(n: int) -> Seq<char> {
    Seq::new(n as nat, |i: int| ' ')
}

/// How much is missing to `width` characters.
pub open spec fn missing(s: Seq<char>, width: int) -> int {
    if s.len() < width {
        width - s.len()
    } else {
        0
    }
}

/// A text filled up with spaces on the right to `width` characters.
pub open spec fn left_aligned(s: Seq<char>, width: int) -> Seq<char> {
    s + blanks(missing(s, width))
}

/// A text filled up with spaces on the left to `width` characters.
pub open spec fn right_aligned(s: Seq<char>, width: int) -> Seq<char> {
    blanks(missing(s, width)) + s
}

/// Appends spaces.
fn push_blanks(out: &mut String, n: usize)
    ensures
        final(out)@ == old(out)@ + blanks(n as int),
{
    let mut i: usize = 0;
    let ghost before = out@;
    assert(before + blanks(0) =~= before);
    while i < n
        invariant
            i <= n,
            out@ == before + blanks(i as int),
        decreases n - i,
    {
        out.push(' ');
        i += 1;
        assert(out@ =~= before + blanks(i as int));
    }
}

fn gap(s: &str, width: usize) -> (n: usize)
    ensures
        n == missing(s@, width as int),
{
    let len: usize = chars_of(s).len();
    if len < width {
        width - len
    } else {
        0
    }
}

/// Appends a text, filled up with spaces on the right.
pub fn push_left_aligned(out: &mut String, s: &str, width: usize)
    ensures
        final(out)@ == old(out)@ + left_aligned(s@, width as int),
{
    let n: usize = gap(s, width);
    out.append(s);
    push_blanks(out, n);
    assert(out@ =~= old(out)@ + left_aligned(s@, width as int));
}

/// Appends a text, filled up with spaces on the left.
pub fn push_right_aligned(out: &mut String, s: &str, width: usize)
    ensures
        final(out)@ == old(out)@ + right_aligned(s@, width as int),
{
    let n: usize = gap(s, width);
    push_blanks(out, n);
    out.append(s);
    assert(out@ =~= old(out)@ + right_aligned(s@, width as int));
}

/// A text cut to `max` characters, the last of them an ellipsis where something was cut off.
pub open spec fn shortened(s: Seq<char>, max: nat) -> Seq<char> {
    if s.len() <= max {
        s
    } else if max == 0 {
        seq!['\u{2026}']
    } else {
        s.take(max - 1).push('\u{2026}')
    }
}

/// Cuts a text to `max` characters.
pub fn truncate(s: &str, max: usize) -> (out: String)
    ensures
        out@ == shortened(s@, max as nat),
{
    let chars: Vec<char> = chars_of(s);
    if chars.len() <= max {
        return s.to_owned();
    }
    let keep: usize = if max == 0 {
        0
    } else {
        max - 1
    };
    let mut out: String = string_of_range(chars.as_slice(), 0, keep);
    out.push('\u{2026}');
    assert(s@.subrange(0, keep as int) =~= s@.take(keep as int));
    assert(max == 0 ==> out@ =~= seq!['\u{2026}']);
    out
}

/// A truncated text has at most `max` characters, for every `max` but 0.
pub proof fn lemma_shortened_fits(s: Seq<char>, max: nat)
    requires
        max > 0,
    ensures
        shortened(s, max).len() <= max,
        s.len() > max ==> shortened(s, max).len() == max && shortened(s, max).last()
            == '\u{2026}',
{
}

/// A text without `c` is one piece, itself.
pub proof fn lemma_one_piece(s: Seq<char>, c: char)
    requires
        !s.contains(c),
    ensures
        pieces(s, c) == seq![s],
    decreases s.len(),
{
    if s.len() == 0 {
        assert(s =~= seq![]);
    } else {
        assert(!s.drop_last().contains(c)) by {
            if s.drop_last().contains(c) {
                let i = s.drop_last().index_of(c);
                assert(s[i] == c);
            }
        }
        lemma_one_piece(s.drop_last(), c);
        assert(s[s.len() - 1] == s.last());
        assert(s.drop_last().push(s.last()) =~= s);
        assert(pieces(s, c) =~= seq![s]);
    }
}

/// What stands behind a `c` is a piece of its own, up to the next one, and the pieces before it
/// are those of what stands before it.
pub proof fn lemma_another_piece(before: Seq<char>, c: char, piece: Seq<char>)
    requires
        !piece.contains(c),
    ensures
        pieces(before + seq![c] + piece, c) == pieces(before, c).push(piece),
    decreases piece.len(),
{
    let s = before + seq![c] + piece;
    if piece.len() == 0 {
        assert(s =~= before.push(c));
        assert(s.drop_last() =~= before);
        assert(piece =~= seq![]);
    } else {
        let shorter = piece.drop_last();
        assert(!shorter.contains(c)) by {
            if shorter.contains(c) {
                let i = shorter.index_of(c);
                assert(piece[i] == c);
            }
        }
        lemma_another_piece(before, c, shorter);
        assert(s.drop_last() =~= before + seq![c] + shorter);
        assert(s.last() == piece.last());
        assert(piece[piece.len() - 1] == piece.last());
        assert(shorter.push(piece.last()) =~= piece);
        assert(pieces(s, c) =~= pieces(before, c).push(piece));
    }
}

/// White space is what Unicode says it is.
pub proof fn lemma_what_white_space_is(c: char)
    ensures
        is_space(c) <==> 0x9 <= c as int <= 0xd || c as int == 0x20 || c as int == 0x85 || c as int
            == 0xa0 || c as int == 0x1680 || 0x2000 <= c as int <= 0x200a || c as int == 0x2028
            || c as int == 0x2029 || c as int == 0x202f || c as int == 0x205f || c as int == 0x3000,
{
}

/// Trimming takes the white space at both ends away and nothing else.
pub proof fn lemma_only_white_space_is_trimmed(before: Seq<char>, s: Seq<char>, after: Seq<char>)
    requires
        forall|i: int| 0 <= i < before.len() ==> is_space(#[trigger] before[i]),
        forall|i: int| 0 <= i < after.len() ==> is_space(#[trigger] after[i]),
        s.len() > 0 ==> !is_space(s[0]) && !is_space(s.last()),
    ensures
        trimmed(before + s + after) == s,
    decreases before.len() + after.len(),
{
    let all = before + s + after;
    if before.len() > 0 {
        assert(all[0] == before[0]);
        assert(all.skip(1) =~= before.skip(1) + s + after);
        lemma_only_white_space_is_trimmed(before.skip(1), s, after);
    } else if s.len() > 0 {
        assert(all =~= s + after);
        assert(all[0] == s[0]);
        assert(trim_start(all) == all);
        lemma_trim_only_the_end(s, after);
    } else if after.len() > 0 {
        assert(all =~= after);
        assert(all[0] == after[0]);
        assert(all.skip(1) =~= seq![] + seq![] + after.skip(1));
        lemma_only_white_space_is_trimmed(seq![], seq![], after.skip(1));
        assert(s =~= seq![]);
    } else {
        assert(all =~= seq![]);
        assert(s =~= seq![]);
    }
}

proof fn lemma_trim_only_the_end(s: Seq<char>, after: Seq<char>)
    requires
        s.len() > 0,
        !is_space(s.last()),
        forall|i: int| 0 <= i < after.len() ==> is_space(#[trigger] after[i]),
    ensures
        trim_end(s + after) == s,
    decreases after.len(),
{
    if after.len() > 0 {
        assert((s + after).last() == after[after.len() - 1]);
        assert((s + after).drop_last() =~= s + after.drop_last());
        lemma_trim_only_the_end(s, after.drop_last());
    } else {
        assert(s + after =~= s);
    }
}

/// A text is cut in two at the first `c`, which goes; without one it is not cut.
pub proof fn lemma_texts_are_parted(a: Seq<char>, c: char, b: Seq<char>)
    requires
        !a.contains(c),
    ensures
        parted(a + seq![c] + b, c) == Some((a, b)),
        parted(a, c) is None,
{
    let s = a + seq![c] + b;
    let n = a.len() as int;
    assert forall|k: int| 0 <= k < n implies s[k] != c && a[k] != c by {
        assert(a.contains(a[k]));
    }
    lemma_parted(s, c, n);
    lemma_parted(a, c, n);
    assert(s.take(n) =~= a);
    assert(s.skip(n + 1) =~= b);
}

/// An aligned text is at least as wide as asked for, exactly so where the text is no wider, and
/// holds the text at the left or at the right; the rest is spaces.
pub proof fn lemma_aligned_texts_fill_their_column(s: Seq<char>, width: int, i: int)
    requires
        0 <= width,
    ensures
        s.len() <= width ==> left_aligned(s, width).len() == width && right_aligned(s, width).len()
            == width,
        s.len() >= width ==> left_aligned(s, width) == s && right_aligned(s, width) == s,
        left_aligned(s, width).take(s.len() as int) == s,
        right_aligned(s, width).skip(right_aligned(s, width).len() - s.len()) == s,
        s.len() <= i < width ==> left_aligned(s, width)[i] == ' ',
        0 <= i < width - s.len() ==> right_aligned(s, width)[i] == ' ',
{
    assert(left_aligned(s, width).take(s.len() as int) =~= s);
    assert(right_aligned(s, width).skip(right_aligned(s, width).len() - s.len()) =~= s);
    if s.len() >= width {
        assert(left_aligned(s, width) =~= s);
        assert(right_aligned(s, width) =~= s);
    }
}

/// A text that fits stays as it is; of any other one the beginning is kept, as much as leaves
/// room for the ellipsis.
pub proof fn lemma_the_beginning_is_kept(s: Seq<char>, max: nat, i: int)
    ensures
        s.len() <= max ==> shortened(s, max) == s,
        s.len() > max && 0 <= i < max - 1 ==> shortened(s, max)[i] == s[i],
        s.len() > max && max > 0 ==> shortened(s, max).len() == max && shortened(
            s,
            max,
        ).last() as int == 0x2026,
        s.len() > max && max == 0 ==> shortened(s, max).len() == 1,
{
}

} // verus!
