//! Reading text: characters, whitespace-separated words, fields between
//! semicolons, and decimal numbers.

use vstd::prelude::*;

verus! {

/// The characters that separate words: those with the Unicode property
/// `White_Space`.
pub open spec fn is_space(c: char) -> bool {
    let n = c as u32;
    ||| 0x09 <= n <= 0x0D
    ||| n == 0x20
    ||| n == 0x85
    ||| n == 0xA0
    ||| n == 0x1680
    ||| 0x2000 <= n <= 0x200A
    ||| n == 0x2028
    ||| n == 0x2029
    ||| n == 0x202F
    ||| n == 0x205F
    ||| n == 0x3000
}

/// The decimal digits `0` to `9`.
pub open spec fn is_digit(c: char) -> bool {
    0x30 <= c as u32 <= 0x39
}

/// Every character of `s` is a decimal digit.
pub open spec fn all_digits(s: Seq<char>) -> bool {
    forall|i: int| 0 <= i < s.len() ==> is_digit(#[trigger] s[i])
}

/// The number that the digits of `s` write in base ten.
pub open spec fn digits_value(s: Seq<char>) -> nat
    decreases s.len(),
{
    if s.len() == 0 {
        0
    } else {
        (digits_value(s.drop_last()) * 10 + (s.last() as u32 - 0x30)) as nat
    }
}

/// The `u64` that `s` writes: an optional `+`, then at least one decimal
/// digit and nothing else, for a number that fits.
pub open spec fn number(s: Seq<char>) -> Option<u64> {
    let digits = if s.len() > 0 && s[0] == '+' {
        s.skip(1)
    } else {
        s
    };
    if digits.len() > 0 && all_digits(digits) && digits_value(digits) <= u64::MAX {
        Some(digits_value(digits) as u64)
    } else {
        None
    }
}

/// The first place from `from` on where `s` holds a character for which
/// `stop` holds; the length of `s` if there is none.
pub open spec fn find(s: Seq<char>, stop: spec_fn(char) -> bool, from: int) -> int
    decreases s.len() - from,
{
    if from < 0 || from >= s.len() {
        s.len() as int
    } else if stop(s[from]) {
        from
    } else {
        find(s, stop, from + 1)
    }
}

/// Holds of whitespace.
pub open spec fn space() -> spec_fn(char) -> bool {
    |c: char| is_space(c)
}

/// Holds of what is no whitespace.
pub open spec fn no_space() -> spec_fn(char) -> bool {
    |c: char| !is_space(c)
}

/// Holds of the semicolon.
pub open spec fn semicolon() -> spec_fn(char) -> bool {
    |c: char| c == ';'
}

/// Holds of the line feed.
pub open spec fn newline() -> spec_fn(char) -> bool {
    |c: char| c == '\n'
}

/// The lines of `s` from place `from` on. A line ends before a line feed,
/// and before the carriage return in front of that line feed if there is
/// one; the last line may end with the text.
pub open spec fn lines_from(s: Seq<char>, from: int) -> Seq<Seq<char>>
    decreases s.len() - from,
{
    if from < 0 || from >= s.len() {
        Seq::empty()
    } else {
        let end = find(s, newline(), from);
        proof {
            lemma_find(s, newline(), from);
        }
        if end >= s.len() {
            seq![s.subrange(from, s.len() as int)]
        } else if from < end && s[end - 1] == '\r' {
            seq![s.subrange(from, end - 1)] + lines_from(s, end + 1)
        } else {
            seq![s.subrange(from, end)] + lines_from(s, end + 1)
        }
    }
}

/// The lines of `s`.
pub open spec fn lines(s: Seq<char>) -> Seq<Seq<char>> {
    lines_from(s, 0)
}

/// The words of `s` from place `from` on: the longest runs of characters
/// that are no whitespace, in their order.
pub open spec fn words_from(s: Seq<char>, from: int) -> Seq<Seq<char>>
    decreases s.len() - from,
{
    if from < 0 || from >= s.len() {
        Seq::empty()
    } else {
        let start = find(s, no_space(), from);
        if start >= s.len() {
            Seq::empty()
        } else {
            let end = find(s, space(), start);
            proof {
                lemma_find(s, no_space(), from);
                lemma_find(s, space(), start + 1);
            }
            seq![s.subrange(start, end)] + words_from(s, end)
        }
    }
}

/// The words of `s`.
pub open spec fn words(s: Seq<char>) -> Seq<Seq<char>> {
    words_from(s, 0)
}

/// The fields of `s` from place `from` on: what stands between one
/// semicolon, or an end of `s`, and the next. There is always at least one,
/// which may be empty.
pub open spec fn fields_from(s: Seq<char>, from: int) -> Seq<Seq<char>>
    decreases s.len() - from,
{
    if from < 0 || from > s.len() {
        Seq::empty()
    } else {
        let end = find(s, semicolon(), from);
        proof {
            lemma_find(s, semicolon(), from);
        }
        if end >= s.len() {
            seq![s.subrange(from, s.len() as int)]
        } else {
            seq![s.subrange(from, end)] + fields_from(s, end + 1)
        }
    }
}

/// The fields of `s`.
pub open spec fn fields(s: Seq<char>) -> Seq<Seq<char>> {
    fields_from(s, 0)
}

/// `find` gives the least place from `from` on where `stop` holds.
pub proof fn lemma_find(s: Seq<char>, stop: spec_fn(char) -> bool, from: int)
    requires
        0 <= from <= s.len(),
    ensures
        from <= find(s, stop, from) <= s.len(),
        find(s, stop, from) < s.len() ==> stop(s[find(s, stop, from)]),
        forall|i: int| from <= i < find(s, stop, from) ==> !stop(#[trigger] s[i]),
    decreases s.len() - from,
{
    if from < s.len() && !stop(s[from]) {
        lemma_find(s, stop, from + 1);
    }
}

/// The characters of a string slice.
pub fn chars_of(s: &str) -> (v: Vec<char>)
    ensures
        v@ == s@,
{
    let mut v: Vec<char> = Vec::new();
    for c in it: s.chars()
        invariant
            v@ == it.seq().take(it.index() as int),
            it.seq() == s@,
    {
        v.push(c);
        assert(it.seq().take(it.index() + 1) =~= it.seq().take(it.index() as int).push(c));
    }
    assert(v@ =~= s@);
    v
}

/// The characters of `v` from place `from` up to `to`, as a list of their
/// own.
pub fn copy_of(v: &Vec<char>, from: usize, to: usize) -> (part: Vec<char>)
    requires
        from <= to <= v.len(),
    ensures
        part@ == v@.subrange(from as int, to as int),
{
    let mut part: Vec<char> = Vec::new();
    let mut i: usize = from;
    while i < to
        invariant
            from <= i <= to <= v.len(),
            part@ == v@.subrange(from as int, i as int),
        decreases to - i,
    {
        part.push(v[i]);
        i += 1;
        assert(part@ =~= v@.subrange(from as int, i as int));
    }
    part
}

/// Whether `c` separates words.
pub fn is_whitespace(c: char) -> (r: bool)
    ensures
        r == is_space(c),
{
    let n = c as u32;
    (0x09 <= n && n <= 0x0D) || n == 0x20 || n == 0x85 || n == 0xA0 || n == 0x1680 || (0x2000 <= n
        && n <= 0x200A) || n == 0x2028 || n == 0x2029 || n == 0x202F || n == 0x205F || n == 0x3000
}

/// Among digits, a beginning writes no larger a number than the whole.
pub proof fn lemma_digits_value_grows(s: Seq<char>, k: int)
    requires
        all_digits(s),
        0 <= k <= s.len(),
    ensures
        digits_value(s.take(k)) <= digits_value(s),
    decreases s.len(),
{
    if k == s.len() {
        assert(s.take(k) =~= s);
    } else {
        assert(all_digits(s.drop_last())) by {
            assert forall|i: int| 0 <= i < s.drop_last().len() implies is_digit(
                #[trigger] s.drop_last()[i],
            ) by {
                assert(is_digit(s[i]));
            }
        }
        lemma_digits_value_grows(s.drop_last(), k);
        assert(s.drop_last().take(k) =~= s.take(k));
        assert(is_digit(s[s.len() - 1]));
    }
}

/// The first place from `from` on that holds no whitespace.
pub fn skip_spaces(v: &Vec<char>, from: usize) -> (r: usize)
    requires
        from <= v.len(),
    ensures
        r == find(v@, no_space(), from as int),
        from <= r <= v.len(),
{
    let mut i: usize = from;
    while i < v.len() && is_whitespace(v[i])
        invariant
            from <= i <= v.len(),
            find(v@, no_space(), from as int) == find(v@, no_space(), i as int),
        decreases v.len() - i,
    {
        i += 1;
    }
    i
}

/// The first place from `from` on that holds whitespace.
pub fn word_end(v: &Vec<char>, from: usize) -> (r: usize)
    requires
        from <= v.len(),
    ensures
        r == find(v@, space(), from as int),
        from <= r <= v.len(),
{
    let mut i: usize = from;
    while i < v.len() && !is_whitespace(v[i])
        invariant
            from <= i <= v.len(),
            find(v@, space(), from as int) == find(v@, space(), i as int),
        decreases v.len() - i,
    {
        i += 1;
    }
    i
}

/// The first place from `from` on that holds a semicolon.
pub fn field_end(v: &Vec<char>, from: usize) -> (r: usize)
    requires
        from <= v.len(),
    ensures
        r == find(v@, semicolon(), from as int),
        from <= r <= v.len(),
{
    let mut i: usize = from;
    while i < v.len() && v[i] != ';'
        invariant
            from <= i <= v.len(),
            find(v@, semicolon(), from as int) == find(v@, semicolon(), i as int),
        decreases v.len() - i,
    {
        i += 1;
    }
    i
}

/// `bounds` gives, for each of `parts` in turn, where it stands in `s`.
pub open spec fn cut_at(s: Seq<char>, bounds: Seq<(usize, usize)>, parts: Seq<Seq<char>>) -> bool {
    &&& bounds.len() == parts.len()
    &&& forall|k: int|
        0 <= k < bounds.len() ==> {
            &&& (#[trigger] bounds[k]).0 <= bounds[k].1 <= s.len()
            &&& s.subrange(bounds[k].0 as int, bounds[k].1 as int) == parts[k]
        }
}

/// Where each word of `v` begins and ends.
pub fn split_words(v: &Vec<char>) -> (r: Vec<(usize, usize)>)
    ensures
        cut_at(v@, r@, words(v@)),
{
    let mut r: Vec<(usize, usize)> = Vec::new();
    let mut from: usize = 0;
    let ghost mut parts: Seq<Seq<char>> = Seq::empty();
    assert(words(v@) =~= parts + words_from(v@, 0));
    while from < v.len()
        invariant
            from <= v.len(),
            words(v@) == parts + words_from(v@, from as int),
            cut_at(v@, r@, parts),
        decreases v.len() - from,
    {
        let start = skip_spaces(v, from);
        if start >= v.len() {
            from = start;
            assert(words(v@) =~= parts + words_from(v@, from as int));
        } else {
            let end = word_end(v, start);
            proof {
                lemma_find(v@, space(), start + 1);
                let word = v@.subrange(start as int, end as int);
                assert(words_from(v@, from as int) == seq![word] + words_from(v@, end as int));
                assert(parts + words_from(v@, from as int) =~= parts.push(word) + words_from(
                    v@,
                    end as int,
                ));
                parts = parts.push(word);
            }
            r.push((start, end));
            from = end;
        }
    }
    assert(words(v@) =~= parts);
    r
}

/// Where each line of `v` begins and ends.
pub fn split_lines(v: &Vec<char>) -> (r: Vec<(usize, usize)>)
    ensures
        cut_at(v@, r@, lines(v@)),
{
    let mut r: Vec<(usize, usize)> = Vec::new();
    let mut from: usize = 0;
    let ghost mut parts: Seq<Seq<char>> = Seq::empty();
    assert(lines(v@) =~= parts + lines_from(v@, 0));
    while from < v.len()
        invariant
            from <= v.len(),
            lines(v@) == parts + lines_from(v@, from as int),
            cut_at(v@, r@, parts),
        decreases v.len() - from,
    {
        let mut end: usize = from;
        while end < v.len() && v[end] != '\n'
            invariant
                from <= end <= v.len(),
                find(v@, newline(), from as int) == find(v@, newline(), end as int),
            decreases v.len() - end,
        {
            end += 1;
        }
        let stop = if end < v.len() && from < end && v[end - 1] == '\r' {
            end - 1
        } else {
            end
        };
        let next = if end < v.len() {
            end + 1
        } else {
            end
        };
        proof {
            let line = v@.subrange(from as int, stop as int);
            assert(lines_from(v@, from as int) =~= seq![line] + lines_from(v@, next as int));
            assert(parts + lines_from(v@, from as int) =~= parts.push(line) + lines_from(
                v@,
                next as int,
            ));
            parts = parts.push(line);
        }
        r.push((from, stop));
        from = next;
    }
    assert(lines(v@) =~= parts);
    r
}

/// Where each field of `v` begins and ends.
pub fn split_fields(v: &Vec<char>) -> (r: Vec<(usize, usize)>)
    ensures
        cut_at(v@, r@, fields(v@)),
        r@.len() >= 1,
{
    let mut r: Vec<(usize, usize)> = Vec::new();
    let mut from: usize = 0;
    let mut done = false;
    let ghost mut parts: Seq<Seq<char>> = Seq::empty();
    assert(fields(v@) =~= parts + fields_from(v@, 0));
    while !done
        invariant
            from <= v.len(),
            !done ==> fields(v@) == parts + fields_from(v@, from as int),
            done ==> fields(v@) == parts && parts.len() >= 1,
            cut_at(v@, r@, parts),
        decreases v.len() - from + (if done { 0int } else { 1int }),
    {
        let end = field_end(v, from);
        proof {
            let field = v@.subrange(from as int, end as int);
            if end < v.len() {
                assert(fields_from(v@, from as int) == seq![field] + fields_from(v@, end + 1));
                assert(parts + fields_from(v@, from as int) =~= parts.push(field) + fields_from(
                    v@,
                    end + 1,
                ));
            } else {
                assert(fields_from(v@, from as int) == seq![field]);
                assert(parts + fields_from(v@, from as int) =~= parts.push(field));
            }
            parts = parts.push(field);
        }
        r.push((from, end));
        if end >= v.len() {
            done = true;
        } else {
            from = end + 1;
        }
    }
    r
}

/// Reads the characters of `v` from `from` up to `to` as a number.
pub fn parse_number(v: &Vec<char>, from: usize, to: usize) -> (r: Option<u64>)
    requires
        from <= to <= v.len(),
    ensures
        r == number(v@.subrange(from as int, to as int)),
{
    let ghost s = v@.subrange(from as int, to as int);
    let mut i: usize = from;
    if i < to && v[i] == '+' {
        i += 1;
    }
    let start = i;
    let ghost digits = v@.subrange(start as int, to as int);
    assert(digits =~= if s.len() > 0 && s[0] == '+' {
        s.skip(1)
    } else {
        s
    });
    if i == to {
        return None;
    }
    let mut acc: u64 = 0;
    while i < to
        invariant
            start <= i <= to <= v.len(),
            s == v@.subrange(from as int, to as int),
            digits == v@.subrange(start as int, to as int),
            digits == (if s.len() > 0 && s[0] == '+' {
                s.skip(1)
            } else {
                s
            }),
            all_digits(digits.take(i - start)),
            acc == digits_value(digits.take(i - start)),
        decreases to - i,
    {
        let n = v[i] as u32;
        if n < 0x30 || n > 0x39 {
            assert(!is_digit(digits[i - start]));
            return None;
        }
        let d = (n - 0x30) as u64;
        proof {
            let next = digits.take(i - start + 1);
            assert(next.drop_last() =~= digits.take(i - start));
            assert(digits_value(next) == acc * 10 + d);
            assert(all_digits(next)) by {
                assert forall|k: int| 0 <= k < next.len() implies is_digit(#[trigger] next[k]) by {
                    if k < i - start {
                        assert(is_digit(digits.take(i - start)[k]));
                    }
                }
            }
            if all_digits(digits) {
                lemma_digits_value_grows(digits, i - start + 1);
            }
        }
        if acc > (u64::MAX - d) / 10 {
            return None;
        }
        acc = acc * 10 + d;
        i += 1;
    }
    assert(digits.take(i - start) =~= digits);
    Some(acc)
}

} // verus!
