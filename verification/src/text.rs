//! Text as sequences of characters: lines, separated fields, trimming, and the
//! conversions between strings and character slices that the parsers build on.
use vstd::prelude::*;
use vstd::slice::slice_subrange;

verus! {

/// `String::push` appends the given character to the end of the string.
pub assume_specification[ String::push ](s: &mut String, c: char)
    ensures
        final(s)@ == old(s)@.push(c),
;

/// The characters of `s`, in order.
pub fn to_chars(s: &str) -> (chars: Vec<char>)
    ensures
        chars@ == s@,
{
    let mut chars: Vec<char> = Vec::new();
    for c in it: s.chars()
        invariant
            it.seq() == s@,
            chars@ == it.seq().take(it.index()),
    {
        chars.push(c);
    }
    chars
}

/// The string made of the characters of `chars`, in order.
pub fn from_chars(chars: &[char]) -> (s: String)
    ensures
        s@ == chars@,
{
    let mut s = String::new();
    for i in 0..chars.len()
        invariant
            s@ == chars@.take(i as int),
    {
        s.push(chars[i]);
    }
    s
}

/// The position of the first `c` in `s`, or the length of `s` without one.
pub open spec fn index_of(s: Seq<char>, c: char) -> int
    decreases s.len(),
{
    if s.len() == 0 || s[0] == c {
        0
    } else {
        1 + index_of(s.skip(1), c)
    }
}

/// What singles out the position that [`index_of`] gives.
pub proof fn lemma_index_of(s: Seq<char>, c: char, i: int)
    requires
        0 <= i <= s.len(),
        forall|j: int| 0 <= j < i ==> s[j] != c,
        i < s.len() ==> s[i] == c,
    ensures
        index_of(s, c) == i,
    decreases s.len(),
{
    if i > 0 {
        lemma_index_of(s.skip(1), c, i - 1);
    }
}

/// [`index_of`] lies within the string, and before it no `c` occurs.
pub proof fn lemma_index_of_bounds(s: Seq<char>, c: char)
    ensures
        0 <= index_of(s, c) <= s.len(),
        index_of(s, c) < s.len() ==> s[index_of(s, c)] == c,
        forall|j: int| 0 <= j < index_of(s, c) ==> s[j] != c,
    decreases s.len(),
{
    if s.len() > 0 && s[0] != c {
        lemma_index_of_bounds(s.skip(1), c);
        assert forall|j: int| 0 <= j < index_of(s, c) implies s[j] != c by {
            if j > 0 {
                assert(s.skip(1)[j - 1] == s[j]);
            }
        }
    }
}

/// The position of the first `c` in `s`, or the length of `s` without one.
pub fn find_char(s: &[char], c: char) -> (at: usize)
    ensures
        at == index_of(s@, c),
        at <= s@.len(),
{
    let mut i: usize = 0;
    while i < s.len() && s[i] != c
        invariant
            i <= s@.len(),
            forall|j: int| 0 <= j < i ==> s@[j] != c,
        decreases s@.len() - i,
    {
        i += 1;
    }
    proof {
        lemma_index_of(s@, c, i as int);
    }
    i
}

/// The views of a list of character slices.
pub open spec fn views(pieces: Seq<&[char]>) -> Seq<Seq<char>> {
    pieces.map_values(|piece: &[char]| piece@)
}

/// `s` cut at every `sep`: the pieces between the separators, empty ones
/// included.
pub open spec fn pieces(s: Seq<char>, sep: char) -> Seq<Seq<char>>
    decreases s.len(),
{
    let at = index_of(s, sep);
    if at < 0 || at >= s.len() {
        seq![s]
    } else {
        seq![s.take(at)] + pieces(s.skip(at + 1), sep)
    }
}

/// `s` cut at the first `n - 1` occurrences of `sep`; the last piece holds the
/// rest, further separators included.
pub open spec fn first_pieces(s: Seq<char>, n: nat, sep: char) -> Seq<Seq<char>>
    decreases n,
{
    let at = index_of(s, sep);
    if n <= 1 || at >= s.len() {
        seq![s]
    } else {
        seq![s.take(at)] + first_pieces(s.skip(at + 1), (n - 1) as nat, sep)
    }
}

/// `s` cut at every `sep`.
pub fn split(s: &[char], sep: char) -> (out: Vec<&[char]>)
    ensures
        views(out@) == pieces(s@, sep),
{
    let mut out: Vec<&[char]> = Vec::new();
    let mut start: usize = 0;
    assert(s@.skip(0) == s@);
    assert(views(out@) == Seq::<Seq<char>>::empty());
    while start <= s.len()
        invariant_except_break
            start <= s@.len(),
            pieces(s@, sep) == views(out@) + pieces(s@.skip(start as int), sep),
        invariant
            start <= s@.len(),
        ensures
            views(out@) == pieces(s@, sep),
        decreases s@.len() - start,
    {
        let rest = slice_subrange(s, start, s.len());
        let at: usize = find_char(rest, sep);
        let ghost before = out@;
        assert(rest@ == s@.skip(start as int));
        if at == rest.len() {
            out.push(rest);
            assert(views(out@) == views(before).push(rest@));
            break;
        }
        let piece = slice_subrange(rest, 0, at);
        out.push(piece);
        start = start + at + 1;
        assert(views(out@) == views(before).push(piece@));
        assert(piece@ == rest@.take(at as int));
        assert(rest@.skip(at + 1) == s@.skip(start as int));
    }
    out
}

/// `s` cut at the first `n - 1` occurrences of `sep`.
pub fn split_first(s: &[char], n: usize, sep: char) -> (out: Vec<&[char]>)
    requires
        n >= 1,
    ensures
        views(out@) == first_pieces(s@, n as nat, sep),
{
    let mut out: Vec<&[char]> = Vec::new();
    let mut start: usize = 0;
    let mut left: usize = n;
    assert(s@.skip(0) == s@);
    assert(views(out@) == Seq::<Seq<char>>::empty());
    while left > 1
        invariant_except_break
            1 <= left,
            first_pieces(s@, n as nat, sep) == views(out@) + first_pieces(
                s@.skip(start as int),
                left as nat,
                sep,
            ),
        invariant
            start <= s@.len(),
        ensures
            first_pieces(s@, n as nat, sep) == views(out@) + seq![s@.skip(start as int)],
        decreases left,
    {
        let rest = slice_subrange(s, start, s.len());
        let at: usize = find_char(rest, sep);
        let ghost before = out@;
        assert(rest@ == s@.skip(start as int));
        if at == rest.len() {
            break;
        }
        let piece = slice_subrange(rest, 0, at);
        out.push(piece);
        start = start + at + 1;
        left = left - 1;
        assert(views(out@) == views(before).push(piece@));
        assert(piece@ == rest@.take(at as int));
        assert(rest@.skip(at + 1) == s@.skip(start as int));
    }
    let ghost before = out@;
    let rest = slice_subrange(s, start, s.len());
    out.push(rest);
    assert(rest@ == s@.skip(start as int));
    assert(views(out@) == views(before).push(rest@));
    out
}

/// A line without the carriage return that may precede its line feed.
pub open spec fn without_carriage_return(line: Seq<char>) -> Seq<char> {
    if line.len() > 0 && line.last() == '\r' {
        line.drop_last()
    } else {
        line
    }
}

/// The lines of `s`. A line ends with a line feed or a carriage return and a
/// line feed, which are not part of it; the last line may lack the ending.
pub open spec fn lines(s: Seq<char>) -> Seq<Seq<char>>
    decreases s.len(),
{
    let at = index_of(s, '\n');
    if s.len() == 0 {
        seq![]
    } else if at < 0 || at >= s.len() {
        seq![s]
    } else {
        seq![without_carriage_return(s.take(at))] + lines(s.skip(at + 1))
    }
}

/// Texts that are put together behind the end of a line have the lines of both.
pub proof fn lemma_lines_of_both(a: Seq<char>, b: Seq<char>)
    requires
        a.len() == 0 || a.last() == '\n',
    ensures
        lines(a + b) == lines(a) + lines(b),
    decreases a.len(),
{
    if a.len() == 0 {
        assert(a + b == b);
    } else {
        let at = index_of(a, '\n');
        lemma_index_of_bounds(a, '\n');
        if at == a.len() {
            assert(a[a.len() - 1] != '\n');
        }
        lemma_index_of(a + b, '\n', at);
        let rest = a.skip(at + 1);
        assert((a + b).take(at) == a.take(at));
        assert((a + b).skip(at + 1) == rest + b);
        lemma_lines_of_both(rest, b);
    }
}

/// The lines of `s`, without their endings.
pub fn split_lines(s: &[char]) -> (out: Vec<&[char]>)
    ensures
        views(out@) == lines(s@),
{
    let mut out: Vec<&[char]> = Vec::new();
    let mut start: usize = 0;
    assert(s@.skip(0) == s@);
    assert(views(out@) == Seq::<Seq<char>>::empty());
    while start < s.len()
        invariant
            start <= s@.len(),
            lines(s@) == views(out@) + lines(s@.skip(start as int)),
        decreases s@.len() - start,
    {
        let rest = slice_subrange(s, start, s.len());
        let at: usize = find_char(rest, '\n');
        let ghost before = out@;
        assert(rest@ == s@.skip(start as int));
        if at == rest.len() {
            out.push(rest);
            start = s.len();
            assert(views(out@) == views(before).push(rest@));
        } else {
            let end: usize = if at > 0 && rest[at - 1] == '\r' {
                at - 1
            } else {
                at
            };
            let line = slice_subrange(rest, 0, end);
            out.push(line);
            start = start + at + 1;
            assert(line@ == without_carriage_return(rest@.take(at as int)));
            assert(views(out@) == views(before).push(line@));
            assert(rest@.skip(at + 1) == s@.skip(start as int));
        }
    }
    out
}

/// The characters with the Unicode property White_Space.
pub open spec fn white_space(c: char) -> bool {
    ||| 0x9 <= c as u32 <= 0xd
    ||| c == ' '
    ||| c as u32 == 0x85
    ||| c as u32 == 0xa0
    ||| c as u32 == 0x1680
    ||| 0x2000 <= c as u32 <= 0x200a
    ||| c as u32 == 0x2028
    ||| c as u32 == 0x2029
    ||| c as u32 == 0x202f
    ||| c as u32 == 0x205f
    ||| c as u32 == 0x3000
}

/// Whether `c` has the Unicode property White_Space.
pub fn is_white_space(c: char) -> (r: bool)
    ensures
        r == white_space(c),
{
    let code: u32 = c as u32;
    c == ' ' || (0x9 <= code && code <= 0xd) || code == 0x85 || code == 0xa0 || code == 0x1680 || (
    0x2000 <= code && code <= 0x200a) || code == 0x2028 || code == 0x2029 || code == 0x202f || code
        == 0x205f || code == 0x3000
}

/// `s` without its leading white space.
pub open spec fn trimmed_start(s: Seq<char>) -> Seq<char>
    decreases s.len(),
{
    if s.len() == 0 || !white_space(s[0]) {
        s
    } else {
        trimmed_start(s.skip(1))
    }
}

/// `s` without its trailing white space.
pub open spec fn trimmed_end(s: Seq<char>) -> Seq<char>
    decreases s.len(),
{
    if s.len() == 0 || !white_space(s.last()) {
        s
    } else {
        trimmed_end(s.drop_last())
    }
}

/// `s` without its leading and trailing white space.
pub open spec fn trimmed(s: Seq<char>) -> Seq<char> {
    trimmed_end(trimmed_start(s))
}

/// `s` without its leading and trailing white space.
pub fn trim(s: &[char]) -> (out: &[char])
    ensures
        out@ == trimmed(s@),
{
    let mut start: usize = 0;
    assert(s@.skip(0) == s@);
    while start < s.len() && is_white_space(s[start])
        invariant
            start <= s@.len(),
            trimmed_start(s@) == trimmed_start(s@.skip(start as int)),
        decreases s@.len() - start,
    {
        start += 1;
        assert(s@.skip(start - 1).skip(1) == s@.skip(start as int));
    }
    let mut end: usize = s.len();
    assert(s@.subrange(start as int, end as int) == s@.skip(start as int));
    while end > start && is_white_space(s[end - 1])
        invariant
            start <= end <= s@.len(),
            trimmed(s@) == trimmed_end(s@.subrange(start as int, end as int)),
        decreases end,
    {
        end -= 1;
        assert(s@.subrange(start as int, end + 1).drop_last() == s@.subrange(
            start as int,
            end as int,
        ));
    }
    slice_subrange(s, start, end)
}

/// The lower-case text that `str::to_lowercase` gives for `s`.
pub uninterp spec fn lower_case(s: Seq<char>) -> Seq<char>;

/// `str::to_lowercase` gives the lower-case equivalent of a string, by the
/// Unicode property Lowercase. It depends on the string alone; what it is for
/// given characters is left to the name.
#[verifier::external_body]
pub(crate) fn to_lower_case(s: &str) -> (r: String)
    ensures
        r@ == lower_case(s@),
{
    s.to_lowercase()
}

/// The digit with the value `d`, as written in hexadecimal.
pub open spec fn digit(d: int) -> char {
    if d == 0 {
        '0'
    } else if d == 1 {
        '1'
    } else if d == 2 {
        '2'
    } else if d == 3 {
        '3'
    } else if d == 4 {
        '4'
    } else if d == 5 {
        '5'
    } else if d == 6 {
        '6'
    } else if d == 7 {
        '7'
    } else if d == 8 {
        '8'
    } else if d == 9 {
        '9'
    } else if d == 10 {
        'a'
    } else if d == 11 {
        'b'
    } else if d == 12 {
        'c'
    } else if d == 13 {
        'd'
    } else if d == 14 {
        'e'
    } else {
        'f'
    }
}

/// The digits of `n` in the given base, most significant first, without
/// leading zeros.
pub open spec fn digits(n: nat, base: nat) -> Seq<char>
    decreases n,
{
    if base < 2 || n < base {
        seq![digit(n as int)]
    } else {
        proof {
            assert(n / base < n) by (nonlinear_arith)
                requires
                    2 <= base <= n,
            ;
        }
        digits(n / base, base).push(digit((n % base) as int))
    }
}

fn digit_char(d: u8) -> (c: char)
    requires
        d < 16,
    ensures
        c == digit(d as int),
{
    match d {
        0 => '0',
        1 => '1',
        2 => '2',
        3 => '3',
        4 => '4',
        5 => '5',
        6 => '6',
        7 => '7',
        8 => '8',
        9 => '9',
        10 => 'a',
        11 => 'b',
        12 => 'c',
        13 => 'd',
        14 => 'e',
        _ => 'f',
    }
}

/// `n` written in the given base.
fn number(n: u128, base: u128) -> (s: String)
    requires
        2 <= base <= 16,
    ensures
        s@ == digits(n as nat, base as nat),
    decreases n,
{
    if n < base {
        let mut s = String::new();
        s.push(digit_char(n as u8));
        assert(s@ == seq![digit(n as int)]);
        s
    } else {
        assert(n / base < n) by (nonlinear_arith)
            requires
                2 <= base <= n,
        ;
        let mut s = number(n / base, base);
        s.push(digit_char((n % base) as u8));
        s
    }
}

/// `n` in decimal digits.
pub fn decimal(n: usize) -> (s: String)
    ensures
        s@ == digits(n as nat, 10),
{
    number(n as u128, 10)
}

/// `n` in lower-case hexadecimal digits.
pub fn hexadecimal(n: u128) -> (s: String)
    ensures
        s@ == digits(n as nat, 16),
{
    number(n, 16)
}

/// Of the ASCII characters the space and the control characters from tab to carriage
/// return are white space, and nothing that is printed is.
pub proof fn law_white_space(c: char)
    ensures
        (c as u32) < 0x80 ==> (white_space(c) <==> c == ' ' || c == '\t' || c == '\n' || c == '\r'
            || c as u32 == 0xb || c as u32 == 0xc),
        c as u32 > 0x3000 ==> !white_space(c),
        c as u32 == 0xa0 || c as u32 == 0x3000 || c as u32 == 0x2028 ==> white_space(c),
{
}

proof fn lemma_trimmed_start(s: Seq<char>) -> (k: int)
    ensures
        0 <= k <= s.len(),
        trimmed_start(s) == s.skip(k),
        forall|i: int| 0 <= i < k ==> white_space(s[i]),
        k < s.len() ==> !white_space(s[k]),
    decreases s.len(),
{
    if s.len() == 0 || !white_space(s[0]) {
        assert(s.skip(0) == s);
        0
    } else {
        let rest = s.skip(1);
        let k = lemma_trimmed_start(rest);
        assert(rest.skip(k) == s.skip(k + 1));
        assert forall|i: int| 0 <= i < k + 1 implies white_space(s[i]) by {
            if i > 0 {
                assert(rest[i - 1] == s[i]);
            }
        }
        k + 1
    }
}

proof fn lemma_trimmed_end(s: Seq<char>) -> (k: int)
    ensures
        0 <= k <= s.len(),
        trimmed_end(s) == s.take(k),
        forall|i: int| k <= i < s.len() ==> white_space(s[i]),
        k > 0 ==> !white_space(s[k - 1]),
    decreases s.len(),
{
    if s.len() == 0 || !white_space(s.last()) {
        assert(s.take(s.len() as int) == s);
        s.len() as int
    } else {
        let rest = s.drop_last();
        let k = lemma_trimmed_end(rest);
        assert(rest.take(k) == s.take(k));
        assert forall|i: int| k <= i < s.len() implies white_space(s[i]) by {
            if i < rest.len() {
                assert(rest[i] == s[i]);
            }
        }
        k
    }
}

/// Trimming takes white space off both ends of a text, all of it, and nothing else.
pub proof fn law_trimming(s: Seq<char>) -> (cut: (Seq<char>, Seq<char>))
    ensures
        s == cut.0 + trimmed(s) + cut.1,
        forall|i: int| 0 <= i < cut.0.len() ==> white_space(#[trigger] cut.0[i]),
        forall|i: int| 0 <= i < cut.1.len() ==> white_space(#[trigger] cut.1[i]),
        trimmed(s).len() > 0 ==> !white_space(trimmed(s)[0]) && !white_space(trimmed(s).last()),
{
    let a = lemma_trimmed_start(s);
    let rest = s.skip(a);
    let b = lemma_trimmed_end(rest);
    let cut = (s.take(a), rest.skip(b));
    assert(s =~= cut.0 + trimmed(s) + cut.1);
    if b > 0 {
        assert(rest[0] == s[a]);
    }
    cut
}

/// A text without white space at its ends is trimmed already, however much white space
/// is put around it.
pub proof fn law_trimming_finds_the_text(before: Seq<char>, s: Seq<char>, after: Seq<char>)
    requires
        s.len() > 0 && !white_space(s[0]) && !white_space(s.last()),
        forall|i: int| 0 <= i < before.len() ==> white_space(#[trigger] before[i]),
        forall|i: int| 0 <= i < after.len() ==> white_space(#[trigger] after[i]),
    ensures
        trimmed(before + s + after) == s,
{
    let all = before + s + after;
    let a = lemma_trimmed_start(all);
    assert(all[before.len() as int] == s[0]);
    if a < before.len() {
        assert(all[a] == before[a]);
    }
    assert(a == before.len());
    let rest = all.skip(a);
    assert(rest == s + after);
    let b = lemma_trimmed_end(rest);
    assert(rest[s.len() - 1] == s.last());
    if b > s.len() {
        assert(rest[b - 1] == after[b - 1 - s.len()]);
    }
    assert(b == s.len());
    assert(rest.take(b) =~= s);
}

/// The texts of a list with `sep` between them.
pub open spec fn with_separators(list: Seq<Seq<char>>, sep: char) -> Seq<char>
    decreases list.len(),
{
    if list.len() == 0 {
        seq![]
    } else if list.len() == 1 {
        list[0]
    } else {
        list[0] + seq![sep] + with_separators(list.skip(1), sep)
    }
}

/// Cutting a text at a separator leaves pieces without it, which give the text back
/// with the separator between them.
pub proof fn law_pieces_of_a_text(s: Seq<char>, sep: char)
    ensures
        pieces(s, sep).len() >= 1,
        forall|i: int|
            0 <= i < pieces(s, sep).len() ==> !(#[trigger] pieces(s, sep)[i]).contains(sep),
        with_separators(pieces(s, sep), sep) == s,
    decreases s.len(),
{
    lemma_index_of_bounds(s, sep);
    let at = index_of(s, sep);
    let all = pieces(s, sep);
    if at < s.len() {
        let rest = s.skip(at + 1);
        law_pieces_of_a_text(rest, sep);
        let tail = pieces(rest, sep);
        assert(all.skip(1) =~= tail);
        assert forall|i: int| 0 <= i < all.len() implies !(#[trigger] all[i]).contains(sep) by {
            if i == 0 {
                assert(all[0] == s.take(at));
            } else {
                assert(all[i] == tail[i - 1]);
            }
        }
        assert(s =~= s.take(at) + seq![sep] + rest);
    } else {
        assert(all =~= seq![s]);
        assert(!s.contains(sep));
    }
}

/// Cutting a text at its first separators leaves at most as many pieces as asked for,
/// which give the text back with the separator between them. Only the last piece may
/// hold the separator, and only where no further piece was asked for.
pub proof fn law_first_pieces_of_a_text(s: Seq<char>, n: nat, sep: char)
    requires
        n >= 1,
    ensures
        1 <= first_pieces(s, n, sep).len() <= n,
        with_separators(first_pieces(s, n, sep), sep) == s,
        forall|i: int|
            0 <= i < first_pieces(s, n, sep).len() && (i < n - 1) ==> !(#[trigger] first_pieces(
                s,
                n,
                sep,
            )[i]).contains(sep),
    decreases n,
{
    lemma_index_of_bounds(s, sep);
    let at = index_of(s, sep);
    let all = first_pieces(s, n, sep);
    if n > 1 && at < s.len() {
        let rest = s.skip(at + 1);
        law_first_pieces_of_a_text(rest, (n - 1) as nat, sep);
        let tail = first_pieces(rest, (n - 1) as nat, sep);
        assert(all.skip(1) =~= tail);
        assert forall|i: int| 0 <= i < all.len() && i < n - 1 implies !(#[trigger] all[i]).contains(
            sep,
        ) by {
            if i == 0 {
                assert(all[0] == s.take(at));
            } else {
                assert(all[i] == tail[i - 1]);
            }
        }
        assert(s =~= s.take(at) + seq![sep] + rest);
    } else {
        assert(all =~= seq![s]);
        if n > 1 {
            assert(!s.contains(sep));
        }
    }
}

/// The texts of a list, each with the end of a line behind it: a line feed, or a
/// carriage return and a line feed.
pub open spec fn terminated(list: Seq<Seq<char>>, crlf: bool) -> Seq<char>
    decreases list.len(),
{
    if list.len() == 0 {
        seq![]
    } else {
        list[0] + (if crlf {
            seq!['\r', '\n']
        } else {
            seq!['\n']
        }) + terminated(list.skip(1), crlf)
    }
}

/// Lines come back from the text that they were put into, whichever way they end, and
/// a last one without an end as well.
pub proof fn law_lines_of_a_text(list: Seq<Seq<char>>, crlf: bool, last: Seq<char>)
    requires
        forall|i: int| 0 <= i < list.len() ==> !(#[trigger] list[i]).contains('\n'),
        forall|i: int|
            0 <= i < list.len() && (#[trigger] list[i]).len() > 0 ==> list[i].last() != '\r',
        !last.contains('\n'),
    ensures
        lines(terminated(list, crlf)) == list,
        lines(terminated(list, crlf) + last) == if last.len() == 0 {
            list
        } else {
            list.push(last)
        },
    decreases list.len(),
{
    let end = if crlf {
        seq!['\r', '\n']
    } else {
        seq!['\n']
    };
    if list.len() == 0 {
        assert(terminated(list, crlf) + last == last);
        assert forall|j: int| 0 <= j < last.len() implies last[j] != '\n' by {
            assert(last.contains(last[j]));
        }
        lemma_index_of(last, '\n', last.len() as int);
        assert(lines(last) =~= if last.len() == 0 {
            list
        } else {
            list.push(last)
        });
        assert(lines(terminated(list, crlf)) =~= list);
    } else {
        let first = list[0] + end;
        let rest = list.skip(1);
        let at = (first.len() - 1) as int;
        assert forall|j: int| 0 <= j < at implies first[j] != '\n' by {
            if j < list[0].len() {
                assert(list[0].contains(list[0][j]));
            }
        }
        lemma_index_of(first, '\n', at);
        assert(first.take(at) =~= if crlf {
            list[0].push('\r')
        } else {
            list[0]
        });
        assert(without_carriage_return(first.take(at)) =~= list[0]) by {
            if crlf {
                assert(list[0].push('\r').drop_last() =~= list[0]);
            }
        }
        assert(first.skip(at + 1) =~= Seq::<char>::empty());
        assert(lines(first.skip(at + 1)) =~= Seq::<Seq<char>>::empty());
        assert(lines(first) =~= seq![list[0]]);
        assert forall|i: int| 0 <= i < rest.len() implies #[trigger] rest[i] == list[i + 1] by {}
        law_lines_of_a_text(rest, crlf, last);
        lemma_lines_of_both(first, terminated(rest, crlf));
        assert(first + terminated(rest, crlf) + last =~= first + (terminated(rest, crlf)
            + last));
        lemma_lines_of_both(first, terminated(rest, crlf) + last);
        assert(seq![list[0]] + rest =~= list);
        assert(seq![list[0]] + rest.push(last) =~= list.push(last));
    }
}

/// The number that a digit stands for.
pub open spec fn digit_value(c: char) -> int {
    if '0' <= c <= '9' {
        c as int - '0' as int
    } else {
        c as int - 'a' as int + 10
    }
}

/// The number that digits in the given base stand for, read from the left.
pub open spec fn number_value(s: Seq<char>, base: nat) -> int
    decreases s.len(),
{
    if s.len() == 0 {
        0
    } else {
        number_value(s.drop_last(), base) * base + digit_value(s.last())
    }
}

/// A number that is written down is read back from its digits, which are below the
/// base and start with a zero for zero alone.
pub proof fn law_written_numbers(n: nat, base: nat)
    requires
        2 <= base <= 16,
    ensures
        number_value(digits(n, base), base) == n,
        digits(n, base).len() >= 1,
        digits(n, base)[0] == '0' ==> n == 0 && digits(n, base).len() == 1,
        forall|i: int|
            0 <= i < digits(n, base).len() ==> 0 <= digit_value(#[trigger] digits(n, base)[i])
                < base && ('0' <= digits(n, base)[i] <= '9' || 'a' <= digits(n, base)[i] <= 'f'),
    decreases n,
{
    reveal_with_fuel(number_value, 2);
    let all = digits(n, base);
    if n < base {
        assert(all.drop_last() =~= Seq::<char>::empty());
        assert(all.last() == digit(n as int));
        assert(number_value(all.drop_last(), base) == 0);
        assert(0 * base == 0) by (nonlinear_arith);
    } else {
        assert(0 < n / base < n) by (nonlinear_arith)
            requires
                2 <= base <= n,
        ;
        law_written_numbers(n / base, base);
        let shorter = digits(n / base, base);
        assert(all.drop_last() =~= shorter);
        assert(all.last() == digit((n % base) as int));
        assert(n == (n / base) * base + n % base) by (nonlinear_arith)
            requires
                base > 0,
        ;
        assert(0 <= n % base < base) by (nonlinear_arith)
            requires
                base > 0,
        ;
        assert forall|i: int| 0 <= i < all.len() implies 0 <= digit_value(#[trigger] all[i]) < base
            && ('0' <= all[i] <= '9' || 'a' <= all[i] <= 'f') by {
            if i < shorter.len() {
                assert(all[i] == shorter[i]);
            }
        }
        assert(all[0] == shorter[0]);
    }
}

} // verus!
