//! Character-level text handling shared by the daily parsers: splitting into
//! lines, words and delimited pieces, replacing, trimming, and reading decimal
//! numbers. Every function is specified over the sequence of characters.
use vstd::prelude::*;

verus! {

/// The characters of a string slice, in order.
pub fn chars_of(s: &str) -> (v: Vec<char>)
    ensures
        v@ == s@,
{
    broadcast use vstd::string::group_string_axioms;

    let mut v: Vec<char> = Vec::new();
    let chars = s.chars();
    for c in it: chars
        invariant
            it.seq() == s@,
            v@ == it.seq().take(it.index() as int),
    {
        v.push(c);
    }
    v
}

/// A copy of the characters of `s` from index `from` up to, not including, `to`.
pub fn subvec(s: &Vec<char>, from: usize, to: usize) -> (v: Vec<char>)
    requires
        from <= to <= s.len(),
    ensures
        v@ == s@.subrange(from as int, to as int),
{
    let mut v: Vec<char> = Vec::new();
    let mut i: usize = from;
    while i < to
        invariant
            from <= i <= to <= s.len(),
            v@ == s@.subrange(from as int, i as int),
        decreases to - i,
    {
        v.push(s[i]);
        i += 1;
    }
    v
}

/// Whether `pat` occurs in `s` starting at index `at`.
pub open spec fn occurs_at(s: Seq<char>, pat: Seq<char>, at: int) -> bool {
    &&& 0 <= at
    &&& at + pat.len() <= s.len()
    &&& s.subrange(at, at + pat.len()) == pat
}

/// The least index at or after `from` where `pat` occurs in `s`, or `s.len()`
/// when there is none. For a non-empty `pat` the result is below `s.len()`
/// exactly when an occurrence exists.
pub open spec fn first_occurrence(s: Seq<char>, pat: Seq<char>, from: int) -> int
    decreases s.len() - from,
{
    if from < 0 || from >= s.len() {
        s.len() as int
    } else if occurs_at(s, pat, from) {
        from
    } else {
        first_occurrence(s, pat, from + 1)
    }
}

/// The first occurrence lies at or after `from`; where it lies within `s`,
/// `pat` occurs there, and nowhere between `from` and it.
pub proof fn lemma_first_occurrence_bounds(s: Seq<char>, pat: Seq<char>, from: int)
    requires
        0 <= from <= s.len(),
        pat.len() > 0,
    ensures
        from <= first_occurrence(s, pat, from) <= s.len(),
        first_occurrence(s, pat, from) < s.len() ==> occurs_at(
            s,
            pat,
            first_occurrence(s, pat, from),
        ),
        forall|i: int| from <= i < first_occurrence(s, pat, from) ==> !occurs_at(s, pat, i),
    decreases s.len() - from,
{
    if from >= s.len() {
    } else if occurs_at(s, pat, from) {
    } else {
        lemma_first_occurrence_bounds(s, pat, from + 1);
    }
}

/// Tests whether `pat` occurs in `s` at index `at`.
pub fn has_at(s: &Vec<char>, pat: &Vec<char>, at: usize) -> (b: bool)
    ensures
        b == occurs_at(s@, pat@, at as int),
{
    if pat.len() > s.len() || at > s.len() - pat.len() {
        return false;
    }
    let mut k: usize = 0;
    while k < pat.len()
        invariant
            at + pat.len() <= s.len(),
            k <= pat.len(),
            forall|j: int| 0 <= j < k ==> s@[at + j] == pat@[j],
        decreases pat.len() - k,
    {
        if s[at + k] != pat[k] {
            proof {
                assert(s@.subrange(at as int, at + pat.len())[k as int] == s@[at + k]);
            }
            return false;
        }
        k += 1;
    }
    proof {
        assert(s@.subrange(at as int, at + pat.len()) =~= pat@);
    }
    true
}

/// Finds the first occurrence of `pat` in `s` at or after `from`.
pub fn find_from(s: &Vec<char>, pat: &Vec<char>, from: usize) -> (at: usize)
    requires
        from <= s.len(),
        pat.len() > 0,
    ensures
        at == first_occurrence(s@, pat@, from as int),
        from <= at <= s.len(),
{
    let mut i: usize = from;
    while i < s.len()
        invariant
            from <= i <= s.len(),
            pat.len() > 0,
            first_occurrence(s@, pat@, from as int) == first_occurrence(s@, pat@, i as int),
        decreases s.len() - i,
    {
        if has_at(s, pat, i) {
            return i;
        }
        i += 1;
    }
    i
}

/// The pieces of `s`, from index `from` on, that lie between successive
/// non-overlapping occurrences of `pat`, leftmost first.
pub open spec fn split_from(s: Seq<char>, pat: Seq<char>, from: int) -> Seq<Seq<char>>
    decreases s.len() - from,
{
    let at = first_occurrence(s, pat, from);
    if 0 <= from <= at < s.len() && 0 < pat.len() <= s.len() - at {
        seq![s.subrange(from, at)] + split_from(s, pat, at + pat.len())
    } else {
        seq![s.subrange(from, s.len() as int)]
    }
}

/// The pieces of `s` between the occurrences of the non-empty delimiter `pat`:
/// one more piece than there are delimiters, empty pieces included.
pub open spec fn split(s: Seq<char>, pat: Seq<char>) -> Seq<Seq<char>> {
    split_from(s, pat, 0)
}

/// The views of the elements of a vector of character vectors.
pub open spec fn views(v: Seq<Vec<char>>) -> Seq<Seq<char>> {
    v.map_values(|p: Vec<char>| p@)
}

/// Splits `s` at each occurrence of the delimiter `pat`.
pub fn split_on(s: &Vec<char>, pat: &Vec<char>) -> (pieces: Vec<Vec<char>>)
    requires
        pat.len() > 0,
    ensures
        views(pieces@) == split(s@, pat@),
{
    let mut pieces: Vec<Vec<char>> = Vec::new();
    let mut from: usize = 0;
    loop
        invariant
            from <= s.len(),
            pat.len() > 0,
            views(pieces@) + split_from(s@, pat@, from as int) == split(s@, pat@),
        decreases s.len() - from,
    {
        let at = find_from(s, pat, from);
        let piece = subvec(s, from, if at < s.len() { at } else { s.len() });
        let ghost before = pieces@;
        pieces.push(piece);
        proof {
            assert(views(pieces@) =~= views(before) + seq![piece@]);
            lemma_first_occurrence_bounds(s@, pat@, from as int);
        }
        if at >= s.len() {
            proof {
                assert(views(pieces@) =~= views(before) + split_from(s@, pat@, from as int));
            }
            return pieces;
        }
        proof {
            assert(views(pieces@) + split_from(s@, pat@, at + pat.len()) =~= views(before)
                + split_from(s@, pat@, from as int));
        }
        from = at + pat.len();
    }
}

/// `s` from index `from` on, with every occurrence of `pat` replaced by `to`;
/// occurrences are taken leftmost first and do not overlap.
pub open spec fn replace_from(s: Seq<char>, pat: Seq<char>, to: Seq<char>, from: int) -> Seq<
    char,
>
    decreases s.len() - from,
{
    let at = first_occurrence(s, pat, from);
    if 0 <= from <= at < s.len() && 0 < pat.len() <= s.len() - at {
        s.subrange(from, at) + to + replace_from(s, pat, to, at + pat.len())
    } else {
        s.subrange(from, s.len() as int)
    }
}

/// `s` with every occurrence of the non-empty `pat` replaced by `to`.
pub open spec fn replaced(s: Seq<char>, pat: Seq<char>, to: Seq<char>) -> Seq<char> {
    replace_from(s, pat, to, 0)
}

/// Appends the characters of `src` to `dst`.
pub fn extend(dst: &mut Vec<char>, src: &Vec<char>)
    ensures
        final(dst)@ == old(dst)@ + src@,
{
    let mut i: usize = 0;
    while i < src.len()
        invariant
            i <= src.len(),
            dst@ == old(dst)@ + src@.take(i as int),
        decreases src.len() - i,
    {
        dst.push(src[i]);
        i += 1;
    }
}

/// Replaces every occurrence of `pat` in `s` by `to`.
pub fn replace(s: &Vec<char>, pat: &Vec<char>, to: &Vec<char>) -> (out: Vec<char>)
    requires
        pat.len() > 0,
    ensures
        out@ == replaced(s@, pat@, to@),
{
    let mut out: Vec<char> = Vec::new();
    let mut from: usize = 0;
    loop
        invariant
            from <= s.len(),
            pat.len() > 0,
            out@ + replace_from(s@, pat@, to@, from as int) == replaced(s@, pat@, to@),
        decreases s.len() - from,
    {
        let at = find_from(s, pat, from);
        let ghost before = out@;
        proof {
            lemma_first_occurrence_bounds(s@, pat@, from as int);
        }
        if at >= s.len() {
            let rest = subvec(s, from, s.len());
            extend(&mut out, &rest);
            return out;
        }
        let kept = subvec(s, from, at);
        extend(&mut out, &kept);
        extend(&mut out, to);
        proof {
            assert(out@ + replace_from(s@, pat@, to@, at + pat.len()) =~= before + replace_from(
                s@,
                pat@,
                to@,
                from as int,
            ));
        }
        from = at + pat.len();
    }
}

/// `line` without a final carriage return.
pub open spec fn without_cr(line: Seq<char>) -> Seq<char> {
    if line.len() > 0 && line.last() == '\r' {
        line.drop_last()
    } else {
        line
    }
}

/// The lines of `s` from index `from` on. A line ends at a line feed, or at a
/// carriage return directly followed by one; the ending is not part of the
/// line, and text after the last line feed forms a line only if it is
/// non-empty.
pub open spec fn lines_from(s: Seq<char>, from: int) -> Seq<Seq<char>>
    decreases s.len() - from,
{
    let at = first_occurrence(s, seq!['\n'], from);
    if 0 <= from <= at < s.len() {
        seq![without_cr(s.subrange(from, at))] + lines_from(s, at + 1)
    } else if 0 <= from < s.len() {
        seq![s.subrange(from, s.len() as int)]
    } else {
        seq![]
    }
}

/// The lines of `s`.
pub open spec fn lines_of(s: Seq<char>) -> Seq<Seq<char>> {
    lines_from(s, 0)
}

/// Splits `s` into its lines.
pub fn lines(s: &Vec<char>) -> (out: Vec<Vec<char>>)
    ensures
        views(out@) == lines_of(s@),
{
    let mut nl: Vec<char> = Vec::new();
    nl.push('\n');
    assert(nl@ =~= seq!['\n']);
    let mut out: Vec<Vec<char>> = Vec::new();
    let mut from: usize = 0;
    while from < s.len()
        invariant
            from <= s.len(),
            nl@ == seq!['\n'],
            views(out@) + lines_from(s@, from as int) == lines_of(s@),
        decreases s.len() - from,
    {
        let at = find_from(s, &nl, from);
        let ghost before = out@;
        proof {
            lemma_first_occurrence_bounds(s@, nl@, from as int);
        }
        if at >= s.len() {
            let line = subvec(s, from, s.len());
            out.push(line);
            proof {
                assert(views(out@) =~= views(before) + lines_from(s@, from as int));
            }
            return out;
        }
        let end = if at > from && s[at - 1] == '\r' {
            at - 1
        } else {
            at
        };
        let line = subvec(s, from, end);
        proof {
            assert(line@ =~= without_cr(s@.subrange(from as int, at as int)));
        }
        out.push(line);
        proof {
            assert(views(out@) + lines_from(s@, at + 1) =~= views(before) + lines_from(
                s@,
                from as int,
            ));
        }
        from = at + 1;
    }
    proof {
        assert(lines_from(s@, from as int) =~= Seq::<Seq<char>>::empty());
        assert(views(out@) =~= views(out@) + Seq::<Seq<char>>::empty());
    }
    out
}

/// Whether `c` is white space: whether it is one of the characters with the
/// Unicode property White_Space, which are the ones that
/// `char::is_whitespace` accepts.
pub open spec fn whitespace(c: char) -> bool {
    ||| '\u{9}' <= c <= '\u{d}'
    ||| c == ' '
    ||| c == '\u{85}'
    ||| c == '\u{a0}'
    ||| c == '\u{1680}'
    ||| '\u{2000}' <= c <= '\u{200a}'
    ||| c == '\u{2028}'
    ||| c == '\u{2029}'
    ||| c == '\u{202f}'
    ||| c == '\u{205f}'
    ||| c == '\u{3000}'
}

/// Whether `c` is white space.
pub fn is_whitespace(c: char) -> (b: bool)
    ensures
        b == whitespace(c),
{
    ('\u{9}' <= c && c <= '\u{d}') || c == ' ' || c == '\u{85}' || c == '\u{a0}' || c
        == '\u{1680}' || ('\u{2000}' <= c && c <= '\u{200a}') || c == '\u{2028}' || c
        == '\u{2029}' || c == '\u{202f}' || c == '\u{205f}' || c == '\u{3000}'
}

/// The least index at or after `from` whose character is white space (for
/// `ws`) or is not (for `!ws`); `s.len()` when there is none.
pub open spec fn next_where(s: Seq<char>, ws: bool, from: int) -> int
    decreases s.len() - from,
{
    if from < 0 || from >= s.len() {
        s.len() as int
    } else if whitespace(s[from]) == ws {
        from
    } else {
        next_where(s, ws, from + 1)
    }
}

/// The character found lies at or after `from`; where it lies within `s`, it
/// is of the kind sought, and none between `from` and it is.
pub proof fn lemma_next_where_bounds(s: Seq<char>, ws: bool, from: int)
    requires
        0 <= from <= s.len(),
    ensures
        from <= next_where(s, ws, from) <= s.len(),
        next_where(s, ws, from) < s.len() ==> whitespace(s[next_where(s, ws, from)]) == ws,
        forall|i: int| from <= i < next_where(s, ws, from) ==> whitespace(#[trigger] s[i]) != ws,
    decreases s.len() - from,
{
    if from < s.len() && whitespace(s[from]) != ws {
        lemma_next_where_bounds(s, ws, from + 1);
    }
}

/// Finds the next white-space (`ws`) or other (`!ws`) character from `from` on.
pub fn skip_to(s: &Vec<char>, ws: bool, from: usize) -> (at: usize)
    requires
        from <= s.len(),
    ensures
        at == next_where(s@, ws, from as int),
        from <= at <= s.len(),
{
    let mut i: usize = from;
    while i < s.len()
        invariant
            from <= i <= s.len(),
            next_where(s@, ws, from as int) == next_where(s@, ws, i as int),
        decreases s.len() - i,
    {
        if is_whitespace(s[i]) == ws {
            return i;
        }
        i += 1;
    }
    i
}

/// The maximal runs of characters other than white space in `s`, from index
/// `from` on, in order.
pub open spec fn words_from(s: Seq<char>, from: int) -> Seq<Seq<char>>
    decreases s.len() - from,
{
    let a = next_where(s, false, from);
    let b = next_where(s, true, a);
    if 0 <= from <= a < b <= s.len() {
        seq![s.subrange(a, b)] + words_from(s, b)
    } else {
        seq![]
    }
}

/// The words of `s`: its maximal runs of characters other than white space.
pub open spec fn words_of(s: Seq<char>) -> Seq<Seq<char>> {
    words_from(s, 0)
}

/// Splits `s` into its words.
pub fn words(s: &Vec<char>) -> (out: Vec<Vec<char>>)
    ensures
        views(out@) == words_of(s@),
{
    let mut out: Vec<Vec<char>> = Vec::new();
    let mut from: usize = 0;
    loop
        invariant
            from <= s.len(),
            views(out@) + words_from(s@, from as int) == words_of(s@),
        decreases s.len() - from,
    {
        let a = skip_to(s, false, from);
        let b = skip_to(s, true, a);
        proof {
            lemma_next_where_bounds(s@, false, from as int);
            lemma_next_where_bounds(s@, true, a as int);
        }
        if a >= b {
            proof {
                assert(views(out@) =~= views(out@) + words_from(s@, from as int));
            }
            return out;
        }
        let word = subvec(s, a, b);
        let ghost before = out@;
        out.push(word);
        proof {
            assert(views(out@) + words_from(s@, b as int) =~= views(before) + words_from(
                s@,
                from as int,
            ));
        }
        from = b;
    }
}

/// `s` without the white space at its end.
pub open spec fn trimmed_end(s: Seq<char>) -> Seq<char>
    decreases s.len(),
{
    if s.len() > 0 && whitespace(s.last()) {
        trimmed_end(s.drop_last())
    } else {
        s
    }
}

/// `s` without the white space at its start and at its end.
pub open spec fn trimmed(s: Seq<char>) -> Seq<char> {
    let t = trimmed_end(s);
    t.skip(next_where(t, false, 0))
}

/// Removes leading and trailing white space.
pub fn trim(s: &Vec<char>) -> (out: Vec<char>)
    ensures
        out@ == trimmed(s@),
{
    let mut end: usize = s.len();
    assert(s@.take(end as int) =~= s@);
    while end > 0 && is_whitespace(s[end - 1])
        invariant
            end <= s.len(),
            trimmed_end(s@) == trimmed_end(s@.take(end as int)),
        decreases end,
    {
        proof {
            assert(s@.take(end as int).drop_last() =~= s@.take(end - 1));
        }
        end -= 1;
    }
    let t = subvec(s, 0, end);
    assert(t@ =~= s@.take(end as int));
    let start = skip_to(&t, false, 0);
    let out = subvec(&t, start, end);
    assert(out@ =~= t@.skip(start as int));
    out
}

/// What follows `prefix` in `s`, if `s` starts with it.
pub open spec fn after_prefix(s: Seq<char>, prefix: Seq<char>) -> Option<Seq<char>> {
    if occurs_at(s, prefix, 0) {
        Some(s.skip(prefix.len() as int))
    } else {
        None
    }
}

/// Removes `prefix` from the start of `s`, if it is there.
pub fn strip_prefix(s: &Vec<char>, prefix: &Vec<char>) -> (out: Option<Vec<char>>)
    ensures
        match out {
            Some(rest) => after_prefix(s@, prefix@) == Some(rest@),
            None => after_prefix(s@, prefix@) is None,
        },
{
    if has_at(s, prefix, 0) {
        let rest = subvec(s, prefix.len(), s.len());
        assert(rest@ =~= s@.skip(prefix.len() as int));
        Some(rest)
    } else {
        None
    }
}

/// Whether `c` is one of the ten decimal digits `0` to `9`.
pub open spec fn is_digit(c: char) -> bool {
    '0' <= c <= '9'
}

/// The number that the decimal digit `c` stands for.
pub open spec fn digit_value(c: char) -> nat {
    if is_digit(c) {
        (c as u32 - 48) as nat
    } else {
        0
    }
}

/// Whether every character of `s` is a decimal digit.
pub open spec fn all_digits(s: Seq<char>) -> bool {
    forall|i: int| 0 <= i < s.len() ==> is_digit(#[trigger] s[i])
}

/// The number written by the decimal digits `s`, most significant first.
pub open spec fn decimal(s: Seq<char>) -> nat
    decreases s.len(),
{
    if s.len() == 0 {
        0
    } else {
        10 * decimal(s.drop_last()) + digit_value(s.last())
    }
}

/// The value of an unsigned decimal numeral: an optional `+`, then one or
/// more digits. `None` for any other text.
pub open spec fn unsigned_numeral(s: Seq<char>) -> Option<nat> {
    let d = if s.len() > 0 && s[0] == '+' {
        s.skip(1)
    } else {
        s
    };
    if d.len() > 0 && all_digits(d) {
        Some(decimal(d))
    } else {
        None
    }
}

/// The value of a signed decimal numeral: an optional `+` or `-`, then one or
/// more digits. `None` for any other text.
pub open spec fn signed_numeral(s: Seq<char>) -> Option<int> {
    if s.len() > 0 && s[0] == '-' {
        let d = s.skip(1);
        if d.len() > 0 && all_digits(d) {
            Some(-(decimal(d) as int))
        } else {
            None
        }
    } else {
        match unsigned_numeral(s) {
            Some(v) => Some(v as int),
            None => None,
        }
    }
}

/// The `usize` that `s` writes, if it is an unsigned numeral within range.
pub open spec fn usize_of(s: Seq<char>) -> Option<usize> {
    match unsigned_numeral(s) {
        Some(v) => if v <= usize::MAX {
            Some(v as usize)
        } else {
            None
        },
        None => None,
    }
}

/// The `isize` that `s` writes, if it is a signed numeral within range.
pub open spec fn isize_of(s: Seq<char>) -> Option<isize> {
    match signed_numeral(s) {
        Some(v) => if isize::MIN <= v <= isize::MAX {
            Some(v as isize)
        } else {
            None
        },
        None => None,
    }
}

/// A numeral is worth at least as much as any of its prefixes.
pub proof fn lemma_decimal_prefix(s: Seq<char>, k: int)
    requires
        0 <= k <= s.len(),
    ensures
        decimal(s.take(k)) <= decimal(s),
    decreases s.len() - k,
{
    if k == s.len() {
        assert(s.take(k) =~= s);
    } else {
        lemma_decimal_prefix(s.drop_last(), k);
        assert(s.drop_last().take(k) =~= s.take(k));
    }
}

/// The value of the digits of `s` from index `from` on, if there is at least
/// one character there, all are digits, and the value is at most `limit`.
fn digits_value(s: &Vec<char>, from: usize, limit: u128) -> (r: Option<u128>)
    requires
        from <= s.len(),
        limit <= 0x1_0000_0000_0000_0000,
    ensures
        r == if from < s.len() && all_digits(s@.skip(from as int)) && decimal(
            s@.skip(from as int),
        ) <= limit {
            Some(decimal(s@.skip(from as int)) as u128)
        } else {
            None
        },
{
    if from >= s.len() {
        return None;
    }
    let ghost d = s@.skip(from as int);
    let mut acc: u128 = 0;
    let mut i: usize = from;
    while i < s.len()
        invariant
            from <= i <= s.len(),
            d == s@.skip(from as int),
            limit <= 0x1_0000_0000_0000_0000,
            acc <= limit,
            acc == decimal(d.take(i - from)),
            all_digits(d.take(i - from)),
        decreases s.len() - i,
    {
        let c = s[i];
        proof {
            assert(d[i - from] == c);
            assert(d.take(i - from + 1).drop_last() =~= d.take(i - from));
        }
        if !('0' <= c && c <= '9') {
            return None;
        }
        let next: u128 = acc * 10 + (c as u32 - 48) as u128;
        if next > limit {
            proof {
                lemma_decimal_prefix(d, i - from + 1);
            }
            return None;
        }
        acc = next;
        i += 1;
    }
    proof {
        assert(d.take(i - from) =~= d);
    }
    Some(acc)
}

/// Reads an unsigned decimal numeral into a `usize`.
pub fn parse_usize(s: &Vec<char>) -> (r: Option<usize>)
    ensures
        r == usize_of(s@),
{
    let from: usize = if s.len() > 0 && s[0] == '+' {
        1
    } else {
        0
    };
    proof {
        assert(s@.skip(0) =~= s@);
    }
    match digits_value(s, from, usize::MAX as u128) {
        Some(v) => Some(v as usize),
        None => None,
    }
}

/// Reads a signed decimal numeral into an `isize`.
pub fn parse_isize(s: &Vec<char>) -> (r: Option<isize>)
    ensures
        r == isize_of(s@),
{
    proof {
        assert(s@.skip(0) =~= s@);
    }
    if s.len() > 0 && s[0] == '-' {
        match digits_value(s, 1, isize::MAX as u128 + 1) {
            Some(v) => if v == isize::MAX as u128 + 1 {
                Some(isize::MIN)
            } else {
                Some(-(v as isize))
            },
            None => None,
        }
    } else {
        let from: usize = if s.len() > 0 && s[0] == '+' {
            1
        } else {
            0
        };
        match digits_value(s, from, isize::MAX as u128) {
            Some(v) => Some(v as isize),
            None => None,
        }
    }
}

/// The numbers that `words` write, if every one of them writes a `usize`.
pub open spec fn all_usize(words: Seq<Seq<char>>) -> Option<Seq<usize>> {
    if forall|i: int| 0 <= i < words.len() ==> usize_of(#[trigger] words[i]) is Some {
        Some(Seq::new(words.len(), |i: int| usize_of(words[i])->0))
    } else {
        None
    }
}

/// Reads every word as a `usize`.
pub fn parse_all_usize(words: &Vec<Vec<char>>) -> (r: Option<Vec<usize>>)
    ensures
        match r {
            Some(v) => all_usize(views(words@)) == Some(v@),
            None => all_usize(views(words@)) is None,
        },
{
    let mut out: Vec<usize> = Vec::new();
    let mut i: usize = 0;
    while i < words.len()
        invariant
            i <= words.len(),
            out.len() == i,
            forall|j: int| 0 <= j < i ==> usize_of(#[trigger] views(words@)[j]) == Some(out@[j]),
        decreases words.len() - i,
    {
        assert(views(words@)[i as int] == words@[i as int]@);
        match parse_usize(&words[i]) {
            Some(n) => {
                out.push(n);
            },
            None => {
                return None;
            },
        }
        i += 1;
    }
    assert(out@ =~= Seq::new(views(words@).len(), |i: int| usize_of(views(words@)[i])->0));
    Some(out)
}

/// The numbers that `words` write, if every one of them writes an `isize`.
pub open spec fn all_isize(words: Seq<Seq<char>>) -> Option<Seq<isize>> {
    if forall|i: int| 0 <= i < words.len() ==> isize_of(#[trigger] words[i]) is Some {
        Some(Seq::new(words.len(), |i: int| isize_of(words[i])->0))
    } else {
        None
    }
}

/// Reads every word as an `isize`.
pub fn parse_all_isize(words: &Vec<Vec<char>>) -> (r: Option<Vec<isize>>)
    ensures
        match r {
            Some(v) => all_isize(views(words@)) == Some(v@),
            None => all_isize(views(words@)) is None,
        },
{
    let mut out: Vec<isize> = Vec::new();
    let mut i: usize = 0;
    while i < words.len()
        invariant
            i <= words.len(),
            out.len() == i,
            forall|j: int| 0 <= j < i ==> isize_of(#[trigger] views(words@)[j]) == Some(out@[j]),
        decreases words.len() - i,
    {
        assert(views(words@)[i as int] == words@[i as int]@);
        match parse_isize(&words[i]) {
            Some(n) => {
                out.push(n);
            },
            None => {
                return None;
            },
        }
        i += 1;
    }
    assert(out@ =~= Seq::new(views(words@).len(), |i: int| isize_of(views(words@)[i])->0));
    Some(out)
}

/// Splitting always gives at least one piece.
pub proof fn lemma_split_nonempty(s: Seq<char>, pat: Seq<char>)
    ensures
        split(s, pat).len() > 0,
{
}

/// Whether `a` and `b` hold the same characters.
pub fn same(a: &Vec<char>, b: &Vec<char>) -> (r: bool)
    ensures
        r == (a@ == b@),
{
    if a.len() != b.len() {
        return false;
    }
    let mut i: usize = 0;
    while i < a.len()
        invariant
            i <= a.len(),
            a.len() == b.len(),
            forall|j: int| 0 <= j < i ==> a@[j] == b@[j],
        decreases a.len() - i,
    {
        if a[i] != b[i] {
            return false;
        }
        i += 1;
    }
    assert(a@ =~= b@);
    true
}

} // verus!
