//! Numerals and small text utilities shared by the other modules.
use vstd::prelude::*;

verus! {

/// `String::push` appends one character to the end of the string.
pub assume_specification[ String::push ](s: &mut String, ch: char)
    ensures
        final(s)@ == old(s)@.push(ch),
;

/// The character that writes the digit `d` in lower-case hexadecimal
/// (and so, below ten, in decimal).
pub open spec fn digit_char(d: nat) -> char
    recommends
        d < 16,
{
    if d < 10 {
        (0x30 + d) as u8 as char
    } else {
        (0x57 + d) as u8 as char
    }
}

/// The decimal numeral of `n`: no sign, no leading zero, `"0"` for zero.
pub open spec fn decimal_text(n: nat) -> Seq<char>
    decreases n,
{
    if n < 10 {
        seq![digit_char(n)]
    } else {
        decimal_text(n / 10).push(digit_char(n % 10))
    }
}

/// The hexadecimal numeral of `n` in exactly `width` lower-case digits,
/// padded with zeros on the left; digits beyond `width` are cut off.
pub open spec fn hex_text(n: nat, width: nat) -> Seq<char>
    decreases width,
{
    if width == 0 {
        Seq::empty()
    } else {
        hex_text(n / 16, (width - 1) as nat).push(digit_char(n % 16))
    }
}

/// Whether `c` is one of `0`–`9`, `a`–`f`.
pub open spec fn is_lower_hex(c: char) -> bool {
    ('0' <= c && c <= '9') || ('a' <= c && c <= 'f')
}

/// The digit character for `d`.
pub fn digit(d: u8) -> (c: char)
    requires
        d < 16,
    ensures
        c == digit_char(d as nat),
        is_lower_hex(c),
        d < 10 ==> '0' <= c && c <= '9',
{
    if d < 10 {
        (0x30 + d) as char
    } else {
        (0x57 + d) as char
    }
}

/// Appends the decimal numeral of `v` to `out`.
pub fn push_decimal(out: &mut String, v: u64)
    ensures
        final(out)@ == old(out)@ + decimal_text(v as nat),
    decreases v,
{
    if v >= 10 {
        push_decimal(out, v / 10);
    }
    out.push(digit((v % 10) as u8));
}

/// Appends the `width`-digit hexadecimal numeral of `v` to `out`.
pub fn push_hex(out: &mut String, v: u64, width: u8)
    ensures
        final(out)@ == old(out)@ + hex_text(v as nat, width as nat),
    decreases width,
{
    if width > 0 {
        push_hex(out, v / 16, width - 1);
        out.push(digit((v % 16) as u8));
    }
}

/// A hexadecimal numeral has the width asked for and holds hex digits only.
pub proof fn lemma_hex_text_shape(n: nat, width: nat)
    ensures
        hex_text(n, width).len() == width,
        forall|i: int| 0 <= i < width ==> is_lower_hex(#[trigger] hex_text(n, width)[i]),
    decreases width,
{
    if width > 0 {
        lemma_hex_text_shape(n / 16, (width - 1) as nat);
    }
}

/// The digit that `c` writes, where it is one of `0`–`9`, `a`–`f`.
pub open spec fn digit_value(c: char) -> nat
    recommends
        is_lower_hex(c),
{
    if '0' <= c && c <= '9' {
        (c as u8 - 0x30) as nat
    } else {
        (c as u8 - 0x57) as nat
    }
}

/// The number that the digits of `s` write in the given base, the first
/// digit weighing most.
pub open spec fn numeral_value(s: Seq<char>, base: nat) -> nat
    decreases s.len(),
{
    if s.len() == 0 {
        0
    } else {
        numeral_value(s.drop_last(), base) * base + digit_value(s.last())
    }
}

/// The number that `width` hexadecimal digits cannot reach: sixteen to
/// the power of `width`.
pub open spec fn hex_limit(width: nat) -> nat
    decreases width,
{
    if width == 0 {
        1
    } else {
        16 * hex_limit((width - 1) as nat)
    }
}

/// A decimal numeral is made of decimal digits, starts with a zero only
/// where it writes zero, and writes the number it was made for.
pub proof fn lemma_decimal_text_value(n: nat)
    ensures
        decimal_text(n).len() >= 1,
        forall|i: int|
            0 <= i < decimal_text(n).len() ==> '0' <= #[trigger] decimal_text(n)[i] && decimal_text(
                n,
            )[i] <= '9',
        decimal_text(n)[0] == '0' <==> n == 0,
        numeral_value(decimal_text(n), 10) == n,
    decreases n,
{
    if n < 10 {
        assert(decimal_text(n).drop_last() =~= Seq::<char>::empty());
        assert(numeral_value(decimal_text(n).drop_last(), 10) == 0);
    } else {
        lemma_decimal_text_value(n / 10);
        assert(decimal_text(n).drop_last() =~= decimal_text(n / 10));
        assert(decimal_text(n)[0] == decimal_text(n / 10)[0]);
    }
}

/// A hexadecimal numeral that is wide enough for its number writes that
/// number.
pub proof fn lemma_hex_text_value(n: nat, width: nat)
    requires
        n < hex_limit(width),
    ensures
        numeral_value(hex_text(n, width), 16) == n,
    decreases width,
{
    if width > 0 {
        lemma_hex_text_value(n / 16, (width - 1) as nat);
        assert(hex_text(n, width).drop_last() =~= hex_text(n / 16, (width - 1) as nat));
    }
}

/// Whether `c` is blank, which is to say that it has the Unicode property
/// White_Space: a tab, a line feed, a vertical tab, a form feed, a carriage
/// return, a space, a next-line mark, a no-break space, an Ogham space
/// mark, one of the spaces from the en quad to the hair space, a line or
/// paragraph separator, a narrow no-break space, a medium mathematical
/// space or an ideographic space.
pub open spec fn is_blank(c: char) -> bool {
    let u = c as u32;
    ||| 0x09 <= u <= 0x0d
    ||| u == 0x20
    ||| u == 0x85
    ||| u == 0xa0
    ||| u == 0x1680
    ||| 0x2000 <= u <= 0x200a
    ||| u == 0x2028
    ||| u == 0x2029
    ||| u == 0x202f
    ||| u == 0x205f
    ||| u == 0x3000
}

/// `char::is_whitespace` tells whether the character has the Unicode
/// property White_Space, which twenty-five characters have.
pub assume_specification[ char::is_whitespace ](c: char) -> (b: bool)
    ensures
        b == is_blank(c),
;

/// The characters of `s`, in order.
pub fn chars_of(s: &str) -> (v: Vec<char>)
    ensures
        v@ == s@,
{
    broadcast use vstd::string::group_string_axioms;

    let mut v: Vec<char> = Vec::new();
    for c in it: s.chars()
        invariant
            it.seq() == s@,
            v@ == s@.take(it.index()),
    {
        v.push(c);
        assert(s@.take(it.index() + 1) == s@.take(it.index()).push(c));
    }
    v
}


/// The string that spells the characters of `v`, in order.
pub fn string_of(v: &Vec<char>) -> (s: String)
    ensures
        s@ == v@,
{
    let mut s = String::new();
    let mut i: usize = 0;
    while i < v.len()
        invariant
            i <= v.len(),
            s@ == v@.take(i as int),
        decreases v.len() - i,
    {
        s.push(v[i]);
        assert(v@.take(i + 1) == v@.take(i as int).push(v@[i as int]));
        i += 1;
    }
    assert(v@.take(v.len() as int) == v@);
    s
}

/// The pieces of `s` that lie between the occurrences of `sep`, in order.
/// There is always at least one piece, and a piece may be empty: a text
/// with `k` separators has `k + 1` pieces.
pub open spec fn split_on(s: Seq<char>, sep: char) -> Seq<Seq<char>>
    decreases s.len(),
{
    if s.len() == 0 {
        seq![Seq::<char>::empty()]
    } else {
        let before = split_on(s.drop_last(), sep);
        if s.last() == sep {
            before.push(Seq::<char>::empty())
        } else {
            before.drop_last().push(before.last().push(s.last()))
        }
    }
}

/// The pieces written one after another with `sep` between neighbours.
pub open spec fn join(pieces: Seq<Seq<char>>, sep: Seq<char>) -> Seq<char>
    decreases pieces.len(),
{
    if pieces.len() == 0 {
        Seq::<char>::empty()
    } else if pieces.len() == 1 {
        pieces[0]
    } else {
        join(pieces.drop_last(), sep) + sep + pieces.last()
    }
}

/// `s` without the blank characters at its start.
pub open spec fn trim_start(s: Seq<char>) -> Seq<char>
    decreases s.len(),
{
    if s.len() > 0 && is_blank(s[0]) {
        trim_start(s.drop_first())
    } else {
        s
    }
}

/// `s` without the blank characters at its end.
pub open spec fn trim_end(s: Seq<char>) -> Seq<char>
    decreases s.len(),
{
    if s.len() > 0 && is_blank(s.last()) {
        trim_end(s.drop_last())
    } else {
        s
    }
}

/// `s` without the blank characters at either end.
pub open spec fn trimmed(s: Seq<char>) -> Seq<char> {
    trim_end(trim_start(s))
}

/// Whether `c` occurs nowhere in `s`.
pub open spec fn free_of(s: Seq<char>, c: char) -> bool {
    forall|i: int| 0 <= i < s.len() ==> s[i] != c
}

/// Splits `s` at every occurrence of `sep`: the pieces hold no separator,
/// and joined by it they give `s` again.
pub fn split(s: &Vec<char>, sep: char) -> (pieces: Vec<Vec<char>>)
    ensures
        pieces.deep_view() == split_on(s@, sep),
        pieces.len() >= 1,
        forall|k: int| 0 <= k < pieces.len() ==> free_of(#[trigger] pieces[k]@, sep),
        join(pieces.deep_view(), seq![sep]) == s@,
{
    let mut pieces: Vec<Vec<char>> = Vec::new();
    let mut current: Vec<char> = Vec::new();
    let mut i: usize = 0;
    while i < s.len()
        invariant
            i <= s.len(),
            pieces.deep_view().push(current@) == split_on(s@.take(i as int), sep),
        decreases s.len() - i,
    {
        let ghost done = pieces.deep_view();
        let ghost open_piece = current@;
        let c = s[i];
        proof {
            let t = s@.take(i + 1);
            assert(t.drop_last() == s@.take(i as int));
            assert(t.last() == c);
            assert(done.push(open_piece).drop_last() == done);
        }
        if c == sep {
            pieces.push(current);
            current = Vec::new();
            assert(pieces.deep_view() =~~= done.push(open_piece));
        } else {
            current.push(c);
        }
        i += 1;
    }
    assert(s@.take(s.len() as int) == s@);
    let ghost done = pieces.deep_view();
    pieces.push(current);
    assert(pieces.deep_view() =~~= done.push(current@));
    proof {
        lemma_split_pieces(s@, sep);
        lemma_join_split(s@, sep);
        assert forall|k: int| 0 <= k < pieces.len() implies free_of(#[trigger] pieces[k]@, sep) by {
            assert(pieces[k]@ =~= split_on(s@, sep)[k]);
        }
    }
    pieces
}

/// Copies `s` without the blank characters at either end.
pub fn trim(s: &Vec<char>) -> (t: Vec<char>)
    ensures
        t@ == trimmed(s@),
        is_tight(t@),
{
    proof {
        lemma_trimmed_is_tight(s@);
    }
    let mut start: usize = 0;
    assert(s@.skip(0) == s@);
    while start < s.len() && s[start].is_whitespace()
        invariant
            start <= s.len(),
            trim_start(s@) == trim_start(s@.skip(start as int)),
        decreases s.len() - start,
    {
        assert(s@.skip(start as int).drop_first() == s@.skip(start + 1));
        start += 1;
    }
    let mut end: usize = s.len();
    assert(s@.subrange(start as int, end as int) == s@.skip(start as int));
    while end > start && s[end - 1].is_whitespace()
        invariant
            start <= end <= s.len(),
            trimmed(s@) == trim_end(s@.subrange(start as int, end as int)),
        decreases end,
    {
        assert(s@.subrange(start as int, end as int).drop_last() == s@.subrange(
            start as int,
            end - 1,
        ));
        end -= 1;
    }
    let mut t: Vec<char> = Vec::new();
    let mut i: usize = start;
    while i < end
        invariant
            start <= i <= end <= s.len(),
            t@ == s@.subrange(start as int, i as int),
        decreases end - i,
    {
        t.push(s[i]);
        assert(s@.subrange(start as int, i + 1) == s@.subrange(start as int, i as int).push(
            s@[i as int],
        ));
        i += 1;
    }
    t
}


/// Splitting always yields a piece, and no piece holds the separator.
pub proof fn lemma_split_pieces(s: Seq<char>, sep: char)
    ensures
        split_on(s, sep).len() >= 1,
        forall|k: int|
            0 <= k < split_on(s, sep).len() ==> free_of(#[trigger] split_on(s, sep)[k], sep),
    decreases s.len(),
{
    if s.len() > 0 {
        lemma_split_pieces(s.drop_last(), sep);
    }
}

/// Joining the pieces of a text with the separator gives the text back.
pub proof fn lemma_join_split(s: Seq<char>, sep: char)
    ensures
        join(split_on(s, sep), seq![sep]) == s,
    decreases s.len(),
{
    let pieces = split_on(s, sep);
    if s.len() == 0 {
        assert(join(pieces, seq![sep]) == s);
    } else {
        let before = split_on(s.drop_last(), sep);
        lemma_join_split(s.drop_last(), sep);
        lemma_split_pieces(s.drop_last(), sep);
        if s.last() == sep {
            assert(pieces.drop_last() == before);
            assert(join(pieces, seq![sep]) == s.drop_last() + seq![sep] + Seq::<char>::empty());
            assert(join(pieces, seq![sep]) =~= s);
        } else if before.len() == 1 {
            assert(join(before, seq![sep]) == before[0]);
            assert(join(pieces, seq![sep]) =~= s);
        } else {
            assert(pieces.drop_last() == before.drop_last());
            assert(join(pieces, seq![sep]) =~= join(before, seq![sep]).push(s.last()));
            assert(join(pieces, seq![sep]) =~= s);
        }
    }
}

/// A text without the separator is its own single piece.
pub proof fn lemma_split_single(piece: Seq<char>, sep: char)
    requires
        free_of(piece, sep),
    ensures
        split_on(piece, sep) == seq![piece],
    decreases piece.len(),
{
    if piece.len() > 0 {
        lemma_split_single(piece.drop_last(), sep);
        assert(split_on(piece, sep) =~~= seq![piece]);
    } else {
        assert(split_on(piece, sep) =~~= seq![piece]);
    }
}

/// A separator followed by a text without one adds that text as a piece.
pub proof fn lemma_split_append(front: Seq<char>, piece: Seq<char>, sep: char)
    requires
        free_of(piece, sep),
    ensures
        split_on(front + seq![sep] + piece, sep) == split_on(front, sep).push(piece),
    decreases piece.len(),
{
    let whole = front + seq![sep] + piece;
    if piece.len() == 0 {
        assert(whole.drop_last() =~= front);
        assert(split_on(whole, sep) =~~= split_on(front, sep).push(piece));
    } else {
        lemma_split_append(front, piece.drop_last(), sep);
        assert(whole.drop_last() =~= front + seq![sep] + piece.drop_last());
        assert(whole.last() == piece.last());
        assert(split_on(whole, sep) =~~= split_on(front, sep).push(piece));
    }
}

/// Splitting what was joined gives the pieces back, where there is at
/// least one piece and none holds the separator.
pub proof fn lemma_split_join(pieces: Seq<Seq<char>>, sep: char)
    requires
        pieces.len() >= 1,
        forall|k: int| 0 <= k < pieces.len() ==> free_of(#[trigger] pieces[k], sep),
    ensures
        split_on(join(pieces, seq![sep]), sep) == pieces,
    decreases pieces.len(),
{
    if pieces.len() == 1 {
        lemma_split_single(pieces[0], sep);
        assert(split_on(join(pieces, seq![sep]), sep) =~~= pieces);
    } else {
        lemma_split_join(pieces.drop_last(), sep);
        lemma_split_append(join(pieces.drop_last(), seq![sep]), pieces.last(), sep);
        assert(split_on(join(pieces, seq![sep]), sep) =~~= pieces);
    }
}


/// Whether `s` has no blank at either end. The empty text has none.
pub open spec fn is_tight(s: Seq<char>) -> bool {
    s.len() == 0 || (!is_blank(s[0]) && !is_blank(s.last()))
}

/// Trimming leaves a tight text alone, and takes away a space put before
/// it.
pub proof fn lemma_trim_tight(s: Seq<char>)
    requires
        is_tight(s),
    ensures
        trimmed(s) == s,
        trimmed(seq![' '] + s) == s,
{
    let padded = seq![' '] + s;
    assert(padded.drop_first() =~= s);
    assert(trim_start(padded) == trim_start(s));
}

/// What trimming leaves is tight.
pub proof fn lemma_trimmed_is_tight(s: Seq<char>)
    ensures
        is_tight(trimmed(s)),
{
    lemma_trim_start_shape(s);
    lemma_trim_end_shape(trim_start(s));
}

/// What is left after the blanks at the start does not start with one,
/// and ends as the text did.
proof fn lemma_trim_start_shape(s: Seq<char>)
    ensures
        trim_start(s).len() > 0 ==> !is_blank(trim_start(s)[0]) && trim_start(s).last() == s.last(),
    decreases s.len(),
{
    if s.len() > 0 && is_blank(s[0]) {
        lemma_trim_start_shape(s.drop_first());
    }
}

/// What is left after the blanks at the end does not end with one, and
/// starts as the text did.
proof fn lemma_trim_end_shape(s: Seq<char>)
    ensures
        trim_end(s).len() > 0 ==> !is_blank(trim_end(s).last()) && trim_end(s)[0] == s[0],
    decreases s.len(),
{
    if s.len() > 0 && is_blank(s.last()) {
        lemma_trim_end_shape(s.drop_last());
    }
}

} // verus!
