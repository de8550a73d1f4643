//! Laws of the operations on text.

use crate::text::{
    before, decimal, digit, file_lines, is_digit, is_listed, is_number, is_white,
    lemma_decimal_number, lemma_position_is, lemma_replace_add, lemma_split_cons, lines, lower,
    lowered, opt_text, pair_text, position, replace, split, split_once, strings, strip_leading,
    strip_trailing, text_result, texts, trim, trim_end, trim_start, without_return,
};
use vstd::prelude::*;

verus! {

/// `n` copies of `c`.
pub open spec fn copies(c: char, n: nat) -> Seq<char> {
    Seq::new(n, |i: int| c)
}

/// Whether all of `s` is white space.
pub open spec fn all_white(s: Seq<char>) -> bool {
    forall|i: int| 0 <= i < s.len() ==> is_white(#[trigger] s[i])
}

/// The digits are those with the code points of `0` to `9`, and a number is made of one or
/// more of them and of nothing else.
pub proof fn numbers_are_digits(s: Seq<char>)
    ensures
        is_number(s) <==> s.len() > 0 && forall|i: int|
            0 <= i < s.len() ==> 48 <= (#[trigger] s[i]) as int <= 57,
{
    if is_number(s) {
        assert forall|i: int| 0 <= i < s.len() implies 48 <= (#[trigger] s[i]) as int <= 57 by {
            assert(is_digit(s[i]));
        }
    } else if s.len() > 0 {
        let i = choose|i: int| 0 <= i < s.len() && !is_digit(#[trigger] s[i]);
        assert(!(48 <= s[i] as int <= 57));
    }
}

/// In lower case, a text has its length, the code point of each of the letters `A` to `Z` is
/// 32 higher, and every other character is as it was.
pub proof fn letters_are_lowered(s: Seq<char>)
    ensures
        lowered(s).len() == s.len(),
        forall|i: int|
            0 <= i < s.len() ==> (#[trigger] lowered(s)[i]) as int == s[i] as int + (if 65
                <= s[i] as int <= 90 {
                32int
            } else {
                0
            }),
{
    assert forall|i: int| 0 <= i < s.len() implies (#[trigger] lowered(s)[i]) as int == s[i] as int
        + (if 65 <= s[i] as int <= 90 {
        32int
    } else {
        0
    }) by {
        assert(lowered(s)[i] == lower(s[i]));
    }
}

/// White space that a text begins with is no part of what `trim_start` leaves.
proof fn lemma_trim_start_white(left: Seq<char>, s: Seq<char>)
    requires
        all_white(left),
    ensures
        trim_start(left + s) == trim_start(s),
    decreases left.len(),
{
    if left.len() == 0 {
        assert(left + s == s);
    } else {
        assert(is_white(left[0]));
        assert((left + s).drop_first() == left.drop_first() + s);
        assert forall|i: int| 0 <= i < left.drop_first().len() implies is_white(
            #[trigger] left.drop_first()[i],
        ) by {
            assert(is_white(left[i + 1]));
        }
        lemma_trim_start_white(left.drop_first(), s);
    }
}

/// White space that a text ends with is no part of what `trim_end` leaves.
proof fn lemma_trim_end_white(s: Seq<char>, right: Seq<char>)
    requires
        all_white(right),
    ensures
        trim_end(s + right) == trim_end(s),
    decreases right.len(),
{
    if right.len() == 0 {
        assert(s + right == s);
    } else {
        assert(is_white(right.last()));
        assert((s + right).drop_last() == s + right.drop_last());
        assert forall|i: int| 0 <= i < right.drop_last().len() implies is_white(
            #[trigger] right.drop_last()[i],
        ) by {
            assert(is_white(right[i]));
        }
        lemma_trim_end_white(s, right.drop_last());
    }
}

/// Trimming takes the white space around a text and nothing else: what begins and ends with
/// other characters is left as it is, with any white space inside; of white space alone
/// nothing is left.
pub proof fn white_space_around_is_trimmed(left: Seq<char>, middle: Seq<char>, right: Seq<char>)
    requires
        all_white(left),
        all_white(right),
        middle.len() > 0 ==> !is_white(middle[0]) && !is_white(middle.last()),
    ensures
        trim(left + middle + right) == middle,
{
    let rest = middle + right;
    assert(left + middle + right == left + rest);
    lemma_trim_start_white(left, rest);
    if middle.len() > 0 {
        assert(rest[0] == middle[0]);
        assert(trim_start(rest) == rest);
        lemma_trim_end_white(middle, right);
    } else {
        assert(rest == right);
        assert(right + middle == right);
        lemma_trim_start_white(right, middle);
        assert(middle == Seq::<char>::empty());
    }
}

/// Exactly the copies of a character that a text begins with are stripped there, and those
/// that it ends with here.
pub proof fn copies_are_stripped(s: Seq<char>, c: char, n: nat)
    ensures
        s.len() == 0 || s[0] != c ==> strip_leading(copies(c, n) + s, c) == s,
        s.len() == 0 || s.last() != c ==> strip_trailing(s + copies(c, n), c) == s,
    decreases n,
{
    if n == 0 {
        assert(copies(c, n) + s == s);
        assert(s + copies(c, n) == s);
    } else {
        let m = (n - 1) as nat;
        assert((copies(c, n) + s).drop_first() == copies(c, m) + s);
        assert((s + copies(c, n)).drop_last() == s + copies(c, m));
        copies_are_stripped(s, c, m);
    }
}

/// A text is divided at the first of the characters it is divided at: what precedes it and
/// what follows it are given whole. Where there is none, there is nothing to divide.
pub proof fn texts_are_divided_at_the_first(left: Seq<char>, c: char, right: Seq<char>)
    requires
        !left.contains(c),
    ensures
        position(left + seq![c] + right, c) == left.len(),
        before(left + seq![c] + right, c) == left,
        split_once(left + seq![c] + right, c) == Some((left, right)),
        position(left, c) == left.len(),
        before(left, c) == left,
        split_once(left, c) is None,
{
    let s = left + seq![c] + right;
    assert forall|i: int| 0 <= i < left.len() implies #[trigger] left[i] != c by {}
    assert forall|i: int| 0 <= i < left.len() implies #[trigger] s[i] != c by {
        assert(left[i] != c);
    }
    lemma_position_is(s, c, left.len());
    lemma_position_is(left, c, left.len());
    assert(s.take(left.len() as int) == left);
    assert(s.skip(left.len() as int + 1) == right);
    assert(left.take(left.len() as int) == left);
}

/// A text is cut into pieces at each occurrence of a character: the first piece is what
/// precedes the first one, and the others are the pieces of what follows it.
pub proof fn texts_are_cut_into_pieces(left: Seq<char>, c: char, right: Seq<char>)
    requires
        !left.contains(c),
    ensures
        split(left, c) == seq![left],
        split(left + seq![c] + right, c) == seq![left] + split(right, c),
{
    lemma_split_cons(left, c, right);
}

/// A line ends at a line feed. One carriage return before that is no part of the line, and
/// one at the end of a text without a line feed is.
pub proof fn lines_end_at_line_feeds(line: Seq<char>, rest: Seq<char>)
    requires
        !line.contains('\n'),
    ensures
        lines(Seq::<char>::empty()) == Seq::<Seq<char>>::empty(),
        line.len() > 0 ==> lines(line) == seq![line],
        line.len() == 0 || line.last() != '\r' ==> lines(line + seq!['\n'] + rest) == seq![line]
            + lines(rest),
        lines(line + seq!['\r', '\n'] + rest) == seq![line] + lines(rest),
{
    texts_are_divided_at_the_first(line, '\n', rest);
    let plain = line + seq!['\n'] + rest;
    assert(plain.take(line.len() as int) == line);
    assert(plain.skip(line.len() as int + 1) == rest);
    let long = line + seq!['\r'];
    assert(!long.contains('\n')) by {
        if long.contains('\n') {
            let i = choose|i: int| 0 <= i < long.len() && long[i] == '\n';
            assert(line[i] == '\n');
        }
    }
    texts_are_divided_at_the_first(long, '\n', rest);
    let marked = line + seq!['\r', '\n'] + rest;
    assert(marked == long + seq!['\n'] + rest);
    assert(marked.take(long.len() as int) == long);
    assert(marked.skip(long.len() as int + 1) == rest);
    assert(without_return(long) == line);
}

/// Text after a line feed is read as it is read alone: its lines follow the earlier ones.
pub proof fn later_lines_follow(earlier: Seq<char>, later: Seq<char>)
    requires
        earlier.len() > 0 ==> earlier.last() == '\n',
    ensures
        lines(earlier + later) == lines(earlier) + lines(later),
    decreases earlier.len(),
{
    if earlier.len() == 0 {
        assert(earlier + later == later);
        assert(lines(earlier) + lines(later) == lines(later));
    } else {
        let all = earlier + later;
        let n = position(earlier, '\n') as int;
        crate::text::lemma_position(earlier, '\n');
        if n == earlier.len() {
            assert(earlier[earlier.len() - 1] != '\n');
        }
        assert forall|i: int| 0 <= i < n implies #[trigger] all[i] != '\n' by {
            assert(earlier[i] != '\n');
        }
        lemma_position_is(all, '\n', n as nat);
        let rest = earlier.skip(n + 1);
        assert(all.take(n) == earlier.take(n));
        assert(all.skip(n + 1) == rest + later);
        if rest.len() > 0 {
            assert(rest.last() == earlier.last());
        }
        later_lines_follow(rest, later);
        let first = seq![without_return(earlier.take(n))];
        assert(first + (lines(rest) + lines(later)) == first + lines(rest) + lines(later));
    }
}

/// Byte order marks at the beginning of a file are no part of its first line; a file without
/// them is read whole.
pub proof fn marks_are_skipped(contents: Seq<char>, n: nat)
    requires
        contents.len() > 0 ==> contents[0] != '\u{feff}',
    ensures
        file_lines(copies('\u{feff}', n) + contents) == lines(contents),
        file_lines(contents) == lines(contents),
{
    copies_are_stripped(contents, '\u{feff}', n);
}

/// A line says something exactly if its first character that is not white space is not `#`;
/// a line of white space alone says nothing.
pub proof fn comments_and_blanks_say_nothing(left: Seq<char>, c: char, rest: Seq<char>)
    requires
        all_white(left),
        !is_white(c),
    ensures
        !is_listed(left),
        is_listed(left + seq![c] + rest) <==> c != '#',
{
    white_space_around_is_trimmed(left, Seq::empty(), Seq::empty());
    assert(left + Seq::<char>::empty() + Seq::<char>::empty() == left);
    let s = seq![c] + rest;
    assert(left + seq![c] + rest == left + s);
    lemma_trim_start_white(left, s);
    assert(trim_start(s) == s);
    lemma_trim_end_first(s);
}

/// What `trim_end` leaves of a text that begins with a visible character begins with it.
proof fn lemma_trim_end_first(s: Seq<char>)
    requires
        s.len() > 0,
        !is_white(s[0]),
    ensures
        trim_end(s).len() > 0,
        trim_end(s)[0] == s[0],
    decreases s.len(),
{
    if is_white(s.last()) {
        lemma_trim_end_first(s.drop_last());
    }
}

/// The number that a run of digits stands for.
pub open spec fn reading(s: Seq<char>) -> int
    decreases s.len(),
{
    if s.len() == 0 {
        0
    } else {
        10 * reading(s.drop_last()) + (s.last() as int - 48)
    }
}

/// A number in decimal is made of digits, is read as that number, and begins with a zero
/// only if it is zero.
pub proof fn decimals_are_read_back(n: nat)
    ensures
        decimal(n).len() > 0,
        forall|i: int| 0 <= i < decimal(n).len() ==> 48 <= (#[trigger] decimal(n)[i]) as int <= 57,
        reading(decimal(n)) == n,
        n > 0 ==> decimal(n)[0] != '0',
        n == 0 ==> decimal(n).len() == 1,
    decreases n,
{
    lemma_decimal_number(n);
    numbers_are_digits(decimal(n));
    if n < 10 {
        assert(digit(n) as u32 == 48 + n);
        assert(decimal(n).drop_last() == Seq::<char>::empty());
        assert(reading(decimal(n).drop_last()) == 0);
        assert(decimal(n).last() == digit(n));
    } else {
        decimals_are_read_back(n / 10);
        assert(digit(n % 10) as u32 == 48 + n % 10);
        assert(decimal(n).drop_last() == decimal(n / 10));
        assert(decimal(n).last() == digit(n % 10));
        assert(decimal(n)[0] == decimal(n / 10)[0]);
    }
}

/// Replacing goes character by character: the one to be replaced gives the replacement, and
/// every other one stays.
pub proof fn characters_are_replaced(s: Seq<char>, x: char, t: Seq<char>, c: char, with: Seq<char>)
    ensures
        replace(Seq::empty(), c, with) == Seq::<char>::empty(),
        replace(s + seq![x] + t, c, with) == replace(s, c, with) + (if x == c {
            with
        } else {
            seq![x]
        }) + replace(t, c, with),
{
    lemma_replace_add(s + seq![x], t, c, with);
    assert((s + seq![x]).drop_last() == s);
}

/// What is said of a string, of several or of an outcome with one is said of their
/// characters, all of them and in their order.
pub proof fn strings_show_their_characters<E>(
    a: String,
    b: String,
    list: Seq<String>,
    slices: Seq<&[char]>,
    e: E,
)
    ensures
        opt_text(Some(a)) == Some(a@),
        opt_text(None) is None,
        pair_text((a, b)) == (a@, b@),
        text_result::<E>(Ok(a)) == Ok::<_, E>(a@),
        text_result::<E>(Err(e)) == Err::<Seq<char>, _>(e),
        strings(list).len() == list.len(),
        forall|i: int| 0 <= i < list.len() ==> #[trigger] strings(list)[i] == list[i]@,
        texts(slices).len() == slices.len(),
        forall|i: int| 0 <= i < slices.len() ==> #[trigger] texts(slices)[i] == slices[i]@,
{
}

} // verus!
