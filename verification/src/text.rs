//! Text as sequences of characters: the few string operations the rest of the crate is
//! written with, each against a mathematical definition.

use vstd::prelude::*;
use vstd::slice::slice_subrange;
use vstd::utf8::encode_utf8;

verus! {

/// `std::string::String::push`: the character is appended, nothing else changes.
pub assume_specification[ String::push ](text: &mut String, c: char)
    ensures
        final(text)@ == old(text)@.push(c),
;

/// The characters with the Unicode property `White_Space`.
pub open spec fn is_white(c: char) -> bool {
    ||| '\u{9}' <= c <= '\u{d}'
    ||| c == ' '
    ||| c == '\u{85}'
    ||| c == '\u{a0}'
    ||| c == '\u{1680}'
    ||| '\u{2000}' <= c <= '\u{200a}'
    ||| c == '\u{2028}'
    ||| c == '\u{2029}'
    ||| c == '\u{202f}'
    ||| c == '\u{205f}'
    ||| c == '\u{3000}'
}

/// The characters of the Unicode general category `Cc` (control codes).
pub open spec fn is_control(c: char) -> bool {
    c <= '\u{1f}' || '\u{7f}' <= c <= '\u{9f}'
}

/// The ten ASCII digits.
pub open spec fn is_digit(c: char) -> bool {
    '0' <= c <= '9'
}

/// A nonempty run of ASCII digits.
pub open spec fn is_number(s: Seq<char>) -> bool {
    s.len() > 0 && forall|i: int| 0 <= i < s.len() ==> is_digit(#[trigger] s[i])
}

/// `s` without the white space it begins with.
pub open spec fn trim_start(s: Seq<char>) -> Seq<char>
    decreases s.len(),
{
    if s.len() > 0 && is_white(s[0]) {
        trim_start(s.drop_first())
    } else {
        s
    }
}

/// `s` without the white space it ends with.
pub open spec fn trim_end(s: Seq<char>) -> Seq<char>
    decreases s.len(),
{
    if s.len() > 0 && is_white(s.last()) {
        trim_end(s.drop_last())
    } else {
        s
    }
}

/// `s` without the white space around it.
pub open spec fn trim(s: Seq<char>) -> Seq<char> {
    trim_end(trim_start(s))
}

/// `s` without the copies of `c` it begins with.
pub open spec fn strip_leading(s: Seq<char>, c: char) -> Seq<char>
    decreases s.len(),
{
    if s.len() > 0 && s[0] == c {
        strip_leading(s.drop_first(), c)
    } else {
        s
    }
}

/// `s` without the copies of `c` it ends with.
pub open spec fn strip_trailing(s: Seq<char>, c: char) -> Seq<char>
    decreases s.len(),
{
    if s.len() > 0 && s.last() == c {
        strip_trailing(s.drop_last(), c)
    } else {
        s
    }
}

/// The index of the first `c` in `s`, or the length of `s` if there is none.
pub open spec fn position(s: Seq<char>, c: char) -> nat
    decreases s.len(),
{
    if s.len() == 0 || s[0] == c {
        0
    } else {
        1 + position(s.drop_first(), c)
    }
}

/// What precedes the first `c` in `s`: all of `s` if there is none.
pub open spec fn before(s: Seq<char>, c: char) -> Seq<char> {
    s.take(position(s, c) as int)
}

/// What stands on either side of the first `c` in `s`.
pub open spec fn split_once(s: Seq<char>, c: char) -> Option<(Seq<char>, Seq<char>)> {
    let n = position(s, c) as int;
    if n < s.len() {
        Some((s.take(n), s.skip(n + 1)))
    } else {
        None
    }
}

/// The pieces of `s` between the occurrences of `c`; always at least one.
pub open spec fn split(s: Seq<char>, c: char) -> Seq<Seq<char>>
    decreases s.len(),
{
    let n = position(s, c) as int;
    if 0 <= n < s.len() {
        seq![s.take(n)] + split(s.skip(n + 1), c)
    } else {
        seq![s]
    }
}

/// A line without the carriage return it ends with.
pub open spec fn without_return(line: Seq<char>) -> Seq<char> {
    if line.len() > 0 && line.last() == '\r' {
        line.drop_last()
    } else {
        line
    }
}

/// The lines of `s`. A line ends with a line feed, which a carriage return may precede;
/// neither belongs to the line. The line feed of the last line is optional.
pub open spec fn lines(s: Seq<char>) -> Seq<Seq<char>>
    decreases s.len(),
{
    let n = position(s, '\n') as int;
    if s.len() == 0 {
        Seq::empty()
    } else if 0 <= n < s.len() {
        seq![without_return(s.take(n))] + lines(s.skip(n + 1))
    } else {
        seq![s]
    }
}

/// The lines of a file: a byte order mark at its beginning does not count.
pub open spec fn file_lines(contents: Seq<char>) -> Seq<Seq<char>> {
    lines(strip_leading(contents, '\u{feff}'))
}

/// Whether a line of a list says anything: it is neither blank nor a comment.
pub open spec fn is_listed(line: Seq<char>) -> bool {
    trim(line).len() > 0 && trim(line)[0] != '#'
}

/// `c` in lower case, if it is an ASCII letter.
pub open spec fn lower(c: char) -> char {
    if 'A' <= c <= 'Z' {
        (c as u32 + 32) as char
    } else {
        c
    }
}

/// `s` with its ASCII letters in lower case.
pub open spec fn lowered(s: Seq<char>) -> Seq<char> {
    s.map_values(|c: char| lower(c))
}

/// The decimal digit that stands for `d`.
pub open spec fn digit(d: nat) -> char {
    ('0' as u32 + d) as char
}

/// `n` in decimal, without leading zeros.
pub open spec fn decimal(n: nat) -> Seq<char>
    decreases n,
{
    if n < 10 {
        seq![digit(n)]
    } else {
        decimal(n / 10).push(digit(n % 10))
    }
}

/// The texts that a list of slices holds.
pub open spec fn texts(pieces: Seq<&[char]>) -> Seq<Seq<char>> {
    pieces.map_values(|piece: &[char]| piece@)
}

/// The texts that a list of strings holds.
pub open spec fn strings(list: Seq<String>) -> Seq<Seq<char>> {
    list.map_values(|item: String| item@)
}

/// The text of an optional string.
pub open spec fn opt_text(s: Option<String>) -> Option<Seq<char>> {
    match s {
        Some(t) => Some(t@),
        None => None,
    }
}

/// A pair of texts.
pub open spec fn pair_text(pair: (String, String)) -> (Seq<char>, Seq<char>) {
    (pair.0@, pair.1@)
}

/// The outcome `r`, with the text of its string.
pub open spec fn text_result<E>(r: Result<String, E>) -> Result<Seq<char>, E> {
    match r {
        Ok(s) => Ok(s@),
        Err(e) => Err(e),
    }
}

/// `s` with each `c` replaced by `with`.
pub open spec fn replace(s: Seq<char>, c: char, with: Seq<char>) -> Seq<char>
    decreases s.len(),
{
    if s.len() == 0 {
        s
    } else {
        replace(s.drop_last(), c, with) + (if s.last() == c {
            with
        } else {
            seq![s.last()]
        })
    }
}

/// A position is in range, what precedes it is free of `c`, and what stands at it is `c`.
pub proof fn lemma_position(s: Seq<char>, c: char)
    ensures
        position(s, c) <= s.len(),
        forall|i: int| 0 <= i < position(s, c) ==> #[trigger] s[i] != c,
        position(s, c) < s.len() ==> s[position(s, c) as int] == c,
    decreases s.len(),
{
    if s.len() > 0 && s[0] != c {
        lemma_position(s.drop_first(), c);
        assert forall|i: int| 0 <= i < position(s, c) implies #[trigger] s[i] != c by {
            if i > 0 {
                assert(s.drop_first()[i - 1] != c);
            }
        }
    }
}

/// A position is determined by what `lemma_position` says of it.
pub proof fn lemma_position_is(s: Seq<char>, c: char, n: nat)
    requires
        n <= s.len(),
        forall|i: int| 0 <= i < n ==> #[trigger] s[i] != c,
        n < s.len() ==> s[n as int] == c,
    ensures
        position(s, c) == n,
{
    lemma_position(s, c);
    let p = position(s, c);
    if p < n {
        assert(s[p as int] != c);
    } else if n < p {
        assert(s[n as int] != c);
    }
}

/// A text with no white space around it.
pub open spec fn is_tight(s: Seq<char>) -> bool {
    s.len() > 0 ==> !is_white(s[0]) && !is_white(s.last())
}

/// What `trim_start` leaves begins with no white space and stands at the end of `s`.
proof fn lemma_trim_start(s: Seq<char>)
    ensures
        trim_start(s).len() > 0 ==> !is_white(trim_start(s)[0]),
        trim_start(s).is_suffix_of(s),
    decreases s.len(),
{
    if s.len() > 0 && is_white(s[0]) {
        lemma_trim_start(s.drop_first());
    }
}

/// What `trim_end` leaves ends with no white space and stands at the beginning of `s`.
proof fn lemma_trim_end(s: Seq<char>)
    ensures
        trim_end(s).len() > 0 ==> !is_white(trim_end(s).last()),
        trim_end(s).is_prefix_of(s),
    decreases s.len(),
{
    if s.len() > 0 && is_white(s.last()) {
        lemma_trim_end(s.drop_last());
    }
}

/// A trimmed text has no white space around it, and holds only what the text holds.
pub proof fn lemma_trim(s: Seq<char>)
    ensures
        is_tight(trim(s)),
        trim(s).len() <= s.len(),
        forall|i: int| 0 <= i < trim(s).len() ==> s.contains(#[trigger] trim(s)[i]),
{
    let t = trim_start(s);
    lemma_trim_start(s);
    lemma_trim_end(t);
    assert forall|i: int| 0 <= i < trim(s).len() implies s.contains(#[trigger] trim(s)[i]) by {
        assert(trim(s)[i] == t[i]);
        assert(t[i] == s[s.len() - t.len() + i]);
    }
}

/// A text with no white space around it is trimmed already.
pub proof fn lemma_trim_tight(s: Seq<char>)
    requires
        is_tight(s),
    ensures
        trim(s) == s,
{
}

/// The texts in `parts`, with a `c` between each and the next.
pub open spec fn join(parts: Seq<Seq<char>>, c: char) -> Seq<char>
    decreases parts.len(),
{
    if parts.len() == 0 {
        Seq::empty()
    } else if parts.len() == 1 {
        parts[0]
    } else {
        parts[0] + seq![c] + join(parts.drop_first(), c)
    }
}

/// What has been split can be joined again.
pub proof fn lemma_join_split(s: Seq<char>, c: char)
    ensures
        join(split(s, c), c) == s,
        split(s, c).len() > 0,
    decreases s.len(),
{
    let n = position(s, c) as int;
    lemma_position(s, c);
    if n < s.len() {
        lemma_join_split(s.skip(n + 1), c);
        assert(split(s, c).drop_first() == split(s.skip(n + 1), c));
        assert(s.take(n) + seq![c] + s.skip(n + 1) == s);
    }
}

/// A text without `c`, then `c`, then the rest: the text is the first piece.
pub proof fn lemma_split_cons(a: Seq<char>, c: char, rest: Seq<char>)
    requires
        !a.contains(c),
    ensures
        split(a, c) == seq![a],
        split(a + seq![c] + rest, c) == seq![a] + split(rest, c),
{
    let s = a + seq![c] + rest;
    lemma_position_is(a, c, a.len());
    assert forall|i: int| 0 <= i < a.len() implies #[trigger] s[i] != c by {
        assert(a[i] != c);
    }
    lemma_position_is(s, c, a.len());
    assert(s.take(a.len() as int) == a);
    assert(s.skip(a.len() as int + 1) == rest);
}

/// The length of `s` in bytes, in UTF-8.
pub open spec fn byte_len(s: Seq<char>) -> nat {
    encode_utf8(s).len()
}

/// A concatenation is as long, in bytes, as its parts together.
pub proof fn lemma_byte_len_add(s: Seq<char>, t: Seq<char>)
    ensures
        byte_len(s + t) == byte_len(s) + byte_len(t),
    decreases s.len(),
{
    if s.len() == 0 {
        assert(s + t == t);
    } else {
        assert((s + t).drop_first() == s.drop_first() + t);
        lemma_byte_len_add(s.drop_first(), t);
    }
}

/// A text has at least as many bytes as characters.
pub proof fn lemma_byte_len(s: Seq<char>)
    ensures
        byte_len(s) >= s.len(),
    decreases s.len(),
{
    if s.len() > 0 {
        lemma_byte_len(s.drop_first());
    }
}

/// Decimal notation is a nonempty run of digits.
pub proof fn lemma_decimal_number(n: nat)
    ensures
        is_number(decimal(n)),
    decreases n,
{
    if n >= 10 {
        lemma_decimal_number(n / 10);
    }
}

/// Different digits differ in decimal.
proof fn lemma_digit_injective(a: nat, b: nat)
    requires
        a < 10,
        b < 10,
        digit(a) == digit(b),
    ensures
        a == b,
{
    assert(digit(a) as u32 == '0' as u32 + a);
    assert(digit(b) as u32 == '0' as u32 + b);
}

/// Different numbers differ in decimal.
pub proof fn lemma_decimal_injective(a: nat, b: nat)
    requires
        decimal(a) == decimal(b),
    ensures
        a == b,
    decreases a,
{
    lemma_decimal_number(a / 10);
    lemma_decimal_number(b / 10);
    let s = decimal(a);
    if a < 10 && b < 10 {
        assert(s[0] == digit(a) && s[0] == digit(b));
        lemma_digit_injective(a, b);
    } else if a >= 10 && b >= 10 {
        assert(s == decimal(a / 10).push(digit(a % 10)));
        assert(s == decimal(b / 10).push(digit(b % 10)));
        assert(s.last() == digit(a % 10) && s.last() == digit(b % 10));
        lemma_digit_injective(a % 10, b % 10);
        assert(s.drop_last() == decimal(a / 10));
        assert(s.drop_last() == decimal(b / 10));
        lemma_decimal_injective(a / 10, b / 10);
        assert(a == 10 * (a / 10) + a % 10);
        assert(b == 10 * (b / 10) + b % 10);
    } else if a < 10 {
        assert(s.len() == 1);
        assert(s == decimal(b / 10).push(digit(b % 10)));
        assert(s.len() == decimal(b / 10).len() + 1);
    } else {
        assert(decimal(b).len() == 1);
        assert(s == decimal(a / 10).push(digit(a % 10)));
        assert(s.len() == decimal(a / 10).len() + 1);
    }
}

/// Replacing in two texts one after the other is replacing in their concatenation.
pub proof fn lemma_replace_add(s: Seq<char>, t: Seq<char>, c: char, with: Seq<char>)
    ensures
        replace(s + t, c, with) == replace(s, c, with) + replace(t, c, with),
    decreases t.len(),
{
    if t.len() == 0 {
        assert(s + t == s);
        assert(replace(s, c, with) + t == replace(s, c, with));
    } else {
        assert((s + t).drop_last() == s + t.drop_last());
        lemma_replace_add(s, t.drop_last(), c, with);
    }
}

/// The characters of a string.
pub fn chars_of(s: &str) -> (r: Vec<char>)
    ensures
        r@ == s@,
{
    let mut r: Vec<char> = Vec::new();
    for c in it: s.chars()
        invariant
            it.seq() == s@,
            r@ == s@.take(it.index() as int),
    {
        r.push(c);
    }
    r
}

/// The string of these characters.
pub fn string_of(s: &[char]) -> (r: String)
    ensures
        r@ == s@,
{
    let mut r = String::new();
    let mut i: usize = 0;
    while i < s.len()
        invariant
            i <= s.len(),
            r@ == s@.take(i as int),
        decreases s.len() - i,
    {
        r.push(s[i]);
        i = i + 1;
        assert(s@.take(i as int) == s@.take(i - 1).push(s@[i - 1]));
    }
    assert(s@.take(s@.len() as int) == s@);
    r
}

/// Whether `c` is white space.
pub fn white(c: char) -> (r: bool)
    ensures
        r == is_white(c),
{
    ('\u{9}' <= c && c <= '\u{d}') || c == ' ' || c == '\u{85}' || c == '\u{a0}' || c == '\u{1680}'
        || ('\u{2000}' <= c && c <= '\u{200a}') || c == '\u{2028}' || c == '\u{2029}' || c
        == '\u{202f}' || c == '\u{205f}' || c == '\u{3000}'
}

/// Whether `s` holds a control character.
pub fn has_control(s: &[char]) -> (r: bool)
    ensures
        r == exists|i: int| 0 <= i < s@.len() && is_control(#[trigger] s@[i]),
{
    let mut i: usize = 0;
    while i < s.len()
        invariant
            i <= s.len(),
            forall|j: int| 0 <= j < i ==> !is_control(#[trigger] s@[j]),
        decreases s.len() - i,
    {
        let c = s[i];
        if c <= '\u{1f}' || ('\u{7f}' <= c && c <= '\u{9f}') {
            assert(is_control(s@[i as int]));
            return true;
        }
        i = i + 1;
    }
    false
}

/// Whether `s` is a nonempty run of ASCII digits.
pub fn number(s: &[char]) -> (r: bool)
    ensures
        r == is_number(s@),
{
    let mut i: usize = 0;
    while i < s.len()
        invariant
            i <= s.len(),
            forall|j: int| 0 <= j < i ==> is_digit(#[trigger] s@[j]),
        decreases s.len() - i,
    {
        if !('0' <= s[i] && s[i] <= '9') {
            assert(!is_digit(s@[i as int]));
            return false;
        }
        i = i + 1;
    }
    s.len() > 0
}

/// `s` without the white space around it.
pub fn trimmed(s: &[char]) -> (r: &[char])
    ensures
        r@ == trim(s@),
{
    let mut from: usize = 0;
    assert(s@.skip(0) == s@);
    while from < s.len() && white(s[from])
        invariant
            from <= s.len(),
            trim_start(s@) == trim_start(s@.skip(from as int)),
        decreases s.len() - from,
    {
        assert(s@.skip(from as int).drop_first() == s@.skip(from + 1));
        from = from + 1;
    }
    let ghost rest = trim_start(s@);
    assert(rest == s@.skip(from as int));
    let mut to: usize = s.len();
    assert(rest.take(to - from) == rest);
    while from < to && white(s[to - 1])
        invariant
            from <= to <= s.len(),
            rest == s@.skip(from as int),
            trim_end(rest) == trim_end(rest.take(to - from)),
        decreases to - from,
    {
        assert(rest.take(to - from).drop_last() == rest.take(to - 1 - from));
        to = to - 1;
    }
    assert(s@.subrange(from as int, to as int) == rest.take(to - from));
    slice_subrange(s, from, to)
}

/// `s` without the copies of `c` it begins with.
pub fn without_leading(s: &[char], c: char) -> (r: &[char])
    ensures
        r@ == strip_leading(s@, c),
{
    let mut from: usize = 0;
    assert(s@.skip(0) == s@);
    while from < s.len() && s[from] == c
        invariant
            from <= s.len(),
            strip_leading(s@, c) == strip_leading(s@.skip(from as int), c),
        decreases s.len() - from,
    {
        assert(s@.skip(from as int).drop_first() == s@.skip(from + 1));
        from = from + 1;
    }
    slice_subrange(s, from, s.len())
}

/// `s` without the copies of `c` it ends with.
pub fn without_trailing(s: &[char], c: char) -> (r: &[char])
    ensures
        r@ == strip_trailing(s@, c),
{
    let mut to: usize = s.len();
    assert(s@.take(to as int) == s@);
    while 0 < to && s[to - 1] == c
        invariant
            to <= s.len(),
            strip_trailing(s@, c) == strip_trailing(s@.take(to as int), c),
        decreases to,
    {
        assert(s@.take(to as int).drop_last() == s@.take(to - 1));
        to = to - 1;
    }
    slice_subrange(s, 0, to)
}

/// The index of the first `c` in `s`, or the length of `s` if there is none.
pub fn find(s: &[char], c: char) -> (n: usize)
    ensures
        n == position(s@, c),
        n <= s@.len(),
{
    let mut n: usize = 0;
    while n < s.len() && s[n] != c
        invariant
            n <= s.len(),
            forall|i: int| 0 <= i < n ==> #[trigger] s@[i] != c,
        decreases s.len() - n,
    {
        n = n + 1;
    }
    proof {
        lemma_position_is(s@, c, n as nat);
    }
    n
}

/// What precedes the first `c` in `s`.
pub fn text_before(s: &[char], c: char) -> (r: &[char])
    ensures
        r@ == before(s@, c),
{
    let n: usize = find(s, c);
    slice_subrange(s, 0, n)
}

/// The pieces of `s` between the occurrences of `c`.
pub fn pieces<'a>(s: &'a [char], c: char) -> (r: Vec<&'a [char]>)
    ensures
        texts(r@) == split(s@, c),
{
    let mut done: Vec<&'a [char]> = Vec::new();
    let mut rest: &'a [char] = s;
    let mut n: usize = find(rest, c);
    while n < rest.len()
        invariant
            n == position(rest@, c),
            n <= rest@.len(),
            split(s@, c) == texts(done@) + split(rest@, c),
        decreases rest@.len(),
    {
        let ghost old_done = done@;
        let piece = slice_subrange(rest, 0, n);
        assert(rest@.skip(n + 1) == rest@.subrange(n + 1, rest@.len() as int));
        done.push(piece);
        assert(texts(done@) == texts(old_done) + seq![rest@.take(n as int)]);
        rest = slice_subrange(rest, n + 1, rest.len());
        n = find(rest, c);
        assert(split(s@, c) == texts(done@) + split(rest@, c));
    }
    let ghost old_done = done@;
    done.push(rest);
    assert(texts(done@) == texts(old_done) + seq![rest@]);
    done
}

/// The lines of `s`.
pub fn text_lines<'a>(s: &'a [char]) -> (r: Vec<&'a [char]>)
    ensures
        texts(r@) == lines(s@),
        r@.len() <= s@.len(),
{
    let mut done: Vec<&'a [char]> = Vec::new();
    let mut rest: &'a [char] = s;
    while rest.len() > 0
        invariant
            lines(s@) == texts(done@) + lines(rest@),
            done@.len() + rest@.len() <= s@.len(),
        decreases rest@.len(),
    {
        let ghost old_done = done@;
        let ghost old_rest = rest@;
        let n: usize = find(rest, '\n');
        if n < rest.len() {
            let to: usize = if n > 0 && rest[n - 1] == '\r' {
                n - 1
            } else {
                n
            };
            let line = slice_subrange(rest, 0, to);
            assert(line@ == without_return(rest@.take(n as int)));
            done.push(line);
            assert(rest@.skip(n + 1) == rest@.subrange(n + 1, rest@.len() as int));
            rest = slice_subrange(rest, n + 1, rest.len());
        } else {
            let line = rest;
            done.push(line);
            rest = slice_subrange(rest, n, n);
            assert(lines(rest@) == Seq::<Seq<char>>::empty());
        }
        assert(texts(done@) == texts(old_done) + seq![done@.last()@]);
        assert(lines(s@) == texts(done@) + lines(rest@));
    }
    assert(texts(done@) + lines(rest@) == texts(done@));
    done
}

/// Whether two texts are equal.
pub fn same(a: &[char], b: &[char]) -> (r: bool)
    ensures
        r == (a@ == b@),
{
    if a.len() != b.len() {
        return false;
    }
    let mut i: usize = 0;
    while i < a.len()
        invariant
            i <= a.len(),
            a@.len() == b@.len(),
            forall|j: int| 0 <= j < i ==> a@[j] == b@[j],
        decreases a.len() - i,
    {
        if a[i] != b[i] {
            return false;
        }
        i = i + 1;
    }
    assert(a@ == b@);
    true
}

/// Whether `a` is the text of `b`.
pub fn is_text(a: &[char], b: &str) -> (r: bool)
    ensures
        r == (a@ == b@),
{
    let b = chars_of(b);
    same(a, b.as_slice())
}

/// Whether there is a string and its text is that of `b`.
pub fn is_some_text(a: &Option<String>, b: &str) -> (r: bool)
    ensures
        r == (opt_text(*a) == Some(b@)),
{
    match a {
        Some(a) => is_text(chars_of(a).as_slice(), b),
        None => false,
    }
}

/// `s` with each `c` replaced by `with`.
pub fn replaced(s: &[char], c: char, with: &str) -> (r: Vec<char>)
    ensures
        r@ == replace(s@, c, with@),
{
    let with = chars_of(with);
    let mut r: Vec<char> = Vec::new();
    let mut i: usize = 0;
    while i < s.len()
        invariant
            i <= s.len(),
            r@ == replace(s@.take(i as int), c, with@),
        decreases s.len() - i,
    {
        if s[i] == c {
            r.extend_from_slice(with.as_slice());
        } else {
            r.push(s[i]);
        }
        i = i + 1;
        assert(s@.take(i as int).drop_last() == s@.take(i - 1));
        assert(r@ == replace(s@.take(i as int), c, with@));
    }
    assert(s@.take(s@.len() as int) == s@);
    r
}

/// What follows `prefix` in `s`, if `s` begins with it.
pub fn after_prefix<'a>(s: &'a [char], prefix: &str) -> (r: Option<&'a [char]>)
    ensures
        match r {
            Some(rest) => prefix@.is_prefix_of(s@) && rest@ == s@.skip(prefix@.len() as int),
            None => !prefix@.is_prefix_of(s@),
        },
{
    let prefix = chars_of(prefix);
    if s.len() < prefix.len() {
        return None;
    }
    if same(slice_subrange(s, 0, prefix.len()), prefix.as_slice()) {
        let rest = slice_subrange(s, prefix.len(), s.len());
        assert(rest@ == s@.skip(prefix@.len() as int));
        Some(rest)
    } else {
        None
    }
}

/// Whether `s` ends with `suffix`.
pub fn has_suffix(s: &[char], suffix: &str) -> (r: bool)
    ensures
        r == suffix@.is_suffix_of(s@),
{
    let suffix = chars_of(suffix);
    if s.len() < suffix.len() {
        return false;
    }
    same(slice_subrange(s, s.len() - suffix.len(), s.len()), suffix.as_slice())
}

/// `s` with its ASCII letters in lower case.
pub fn in_lower_case(s: &[char]) -> (r: Vec<char>)
    ensures
        r@ == lowered(s@),
{
    let mut r: Vec<char> = Vec::new();
    let mut i: usize = 0;
    while i < s.len()
        invariant
            i <= s.len(),
            r@ == lowered(s@.take(i as int)),
        decreases s.len() - i,
    {
        let c = s[i];
        if 'A' <= c && c <= 'Z' {
            r.push((c as u8 + 32) as char);
        } else {
            r.push(c);
        }
        i = i + 1;
        assert(lowered(s@.take(i as int)) == lowered(s@.take(i - 1)).push(lower(s@[i - 1])));
    }
    assert(s@.take(s@.len() as int) == s@);
    r
}

/// `n` in decimal.
pub fn in_decimal(n: u128) -> (r: String)
    ensures
        r@ == decimal(n as nat),
    decreases n,
{
    if n < 10 {
        let mut r = String::new();
        r.push((48 + n as u8) as char);
        assert(r@ == seq![digit(n as nat)]);
        r
    } else {
        let mut r = in_decimal(n / 10);
        r.push((48 + (n % 10) as u8) as char);
        r
    }
}

/// The concatenation of three texts.
pub fn joined(a: &str, b: &str, c: &str) -> (r: String)
    ensures
        r@ == a@ + b@ + c@,
{
    a.to_owned().concat(b).concat(c)
}

} // verus!
