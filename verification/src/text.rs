//! Character and word level text utilities.
//!
//! Strings are modelled by their view, a `Seq<char>`. The executable functions
//! work on `Vec<char>` buffers, and two conversions connect them to `String`.

use vstd::prelude::*;

verus! {

/// Whether `c` separates words: the Unicode `White_Space` code points.
pub open spec fn is_whitespace(c: char) -> bool {
    let n = c as u32;
    ||| 0x09 <= n <= 0x0D
    ||| n == 0x20
    ||| n == 0x85
    ||| n == 0xA0
    ||| n == 0x1680
    ||| 0x2000 <= n <= 0x200A
    ||| n == 0x2028
    ||| n == 0x2029
    ||| n == 0x202F
    ||| n == 0x205F
    ||| n == 0x3000
}

/// `s` without its leading whitespace.
pub open spec fn trim_start(s: Seq<char>) -> Seq<char>
    decreases s.len(),
{
    if s.len() > 0 && is_whitespace(s.first()) {
        trim_start(s.drop_first())
    } else {
        s
    }
}

/// `s` without its trailing whitespace.
pub open spec fn trim_end(s: Seq<char>) -> Seq<char>
    decreases s.len(),
{
    if s.len() > 0 && is_whitespace(s.last()) {
        trim_end(s.drop_last())
    } else {
        s
    }
}

/// `s` without leading and trailing whitespace.
pub open spec fn trim(s: Seq<char>) -> Seq<char> {
    trim_end(trim_start(s))
}

/// A text that neither starts nor ends with whitespace.
pub open spec fn is_trimmed(s: Seq<char>) -> bool {
    s.len() > 0 ==> !is_whitespace(s.first()) && !is_whitespace(s.last())
}

/// The maximal runs of non-whitespace characters of `s`, in order.
///
/// Defined from the right: a trailing whitespace character changes nothing, a
/// trailing word character extends the last word when it directly follows
/// another word character, and starts a new word otherwise.
pub open spec fn split_words(s: Seq<char>) -> Seq<Seq<char>>
    decreases s.len(),
{
    if s.len() == 0 {
        Seq::empty()
    } else if is_whitespace(s.last()) {
        split_words(s.drop_last())
    } else {
        let before = s.drop_last();
        let words = split_words(before);
        if before.len() > 0 && !is_whitespace(before.last()) && words.len() > 0 {
            words.drop_last().push(words.last().push(s.last()))
        } else {
            words.push(seq![s.last()])
        }
    }
}

/// The parts in order, with `separator` between neighbours.
pub open spec fn join_with(parts: Seq<Seq<char>>, separator: char) -> Seq<char>
    decreases parts.len(),
{
    if parts.len() == 0 {
        Seq::empty()
    } else if parts.len() == 1 {
        parts[0]
    } else {
        join_with(parts.drop_last(), separator) + seq![separator] + parts.last()
    }
}

/// The words joined with a single space between neighbours.
pub open spec fn join_words(words: Seq<Seq<char>>) -> Seq<char> {
    join_with(words, ' ')
}

/// The code of `c` with the ASCII capitals mapped to their lower-case letters.
pub open spec fn ascii_fold(c: char) -> u32 {
    let n = c as u32;
    if 0x41 <= n <= 0x5A {
        (n + 0x20) as u32
    } else {
        n
    }
}

/// Equality of two words up to the case of ASCII letters.
pub open spec fn eq_ignore_ascii_case(a: Seq<char>, b: Seq<char>) -> bool {
    &&& a.len() == b.len()
    &&& forall|i: int| 0 <= i < a.len() ==> ascii_fold(#[trigger] a[i]) == ascii_fold(b[i])
}

/// The views of a vector of character buffers.
pub open spec fn views(words: Seq<Vec<char>>) -> Seq<Seq<char>> {
    words.map_values(|w: Vec<char>| w@)
}

/// Decimal digits of `n`, most significant first, without leading zeros.
pub open spec fn decimal(n: nat) -> Seq<char>
    decreases n,
{
    if n < 10 {
        seq![digit_char(n)]
    } else {
        decimal(n / 10).push(digit_char(n % 10))
    }
}

/// The character of a single decimal digit.
pub open spec fn digit_char(d: nat) -> char
    recommends
        d < 10,
{
    (0x30 + d) as char
}

/// Everything before index `i` of `s` is whitespace and `s[i]`, if any, is not.
pub proof fn lemma_trim_start_is_skip(s: Seq<char>, i: int)
    requires
        0 <= i <= s.len(),
        forall|k: int| 0 <= k < i ==> is_whitespace(#[trigger] s[k]),
        i < s.len() ==> !is_whitespace(s[i]),
    ensures
        trim_start(s) == s.skip(i),
    decreases i,
{
    if i == 0 {
        assert(s.skip(0) =~= s);
    } else {
        let t = s.drop_first();
        assert forall|k: int| 0 <= k < i - 1 implies is_whitespace(#[trigger] t[k]) by {
            assert(t[k] == s[k + 1]);
        }
        lemma_trim_start_is_skip(t, i - 1);
        assert(t.skip(i - 1) =~= s.skip(i));
    }
}

/// Everything from index `j` of `s` on is whitespace and `s[j - 1]`, if any, is not.
pub proof fn lemma_trim_end_is_take(s: Seq<char>, j: int)
    requires
        0 <= j <= s.len(),
        forall|k: int| j <= k < s.len() ==> is_whitespace(#[trigger] s[k]),
        0 < j ==> !is_whitespace(s[j - 1]),
    ensures
        trim_end(s) == s.take(j),
    decreases s.len() - j,
{
    if j == s.len() {
        assert(s.take(j) =~= s);
    } else {
        let t = s.drop_last();
        lemma_trim_end_is_take(t, j);
        assert(t.take(j) =~= s.take(j));
    }
}

/// Trimming yields a text that is trimmed, and leaves a trimmed text alone.
pub proof fn lemma_trim_is_trimmed(s: Seq<char>)
    ensures
        is_trimmed(trim(s)),
        is_trimmed(s) ==> trim(s) == s,
{
    lemma_trim_start_bounds(s);
    lemma_trim_end_bounds(trim_start(s));
}

/// The result of `trim_start` is a suffix that does not start with whitespace.
pub proof fn lemma_trim_start_bounds(s: Seq<char>)
    ensures
        trim_start(s).len() <= s.len(),
        trim_start(s) == s.skip(s.len() - trim_start(s).len()),
        trim_start(s).len() > 0 ==> !is_whitespace(trim_start(s).first()),
    decreases s.len(),
{
    if s.len() > 0 && is_whitespace(s.first()) {
        let t = s.drop_first();
        lemma_trim_start_bounds(t);
        assert(t.skip(t.len() - trim_start(t).len()) =~= s.skip(s.len() - trim_start(s).len()));
    } else {
        assert(s.skip(0) =~= s);
    }
}

/// The result of `trim_end` is a prefix that does not end with whitespace.
pub proof fn lemma_trim_end_bounds(s: Seq<char>)
    ensures
        trim_end(s).len() <= s.len(),
        trim_end(s) == s.take(trim_end(s).len() as int),
        trim_end(s).len() > 0 ==> !is_whitespace(trim_end(s).last()),
    decreases s.len(),
{
    if s.len() > 0 && is_whitespace(s.last()) {
        let t = s.drop_last();
        lemma_trim_end_bounds(t);
        assert(t.take(trim_end(t).len() as int) =~= s.take(trim_end(s).len() as int));
    } else {
        assert(s.take(s.len() as int) =~= s);
    }
}

/// A non-empty run of characters none of which is whitespace.
pub open spec fn is_word(w: Seq<char>) -> bool {
    &&& w.len() > 0
    &&& forall|j: int| 0 <= j < w.len() ==> !is_whitespace(#[trigger] w[j])
}

/// Every word is non-empty and free of whitespace, and a text that ends in a
/// word character ends in the last character of its last word.
pub proof fn lemma_words_are_solid(s: Seq<char>)
    ensures
        forall|i: int| 0 <= i < split_words(s).len() ==> is_word(#[trigger] split_words(s)[i]),
        s.len() > 0 && !is_whitespace(s.last()) ==> split_words(s).len() > 0 && split_words(
            s,
        ).last().last() == s.last(),
    decreases s.len(),
{
    if s.len() > 0 {
        let before = s.drop_last();
        let words = split_words(before);
        lemma_words_are_solid(before);
        if !is_whitespace(s.last()) {
            if before.len() > 0 && !is_whitespace(before.last()) && words.len() > 0 {
                let grown = words.last().push(s.last());
                assert(is_word(words.last()));
                assert(is_word(grown)) by {
                    assert forall|j: int| 0 <= j < grown.len() implies !is_whitespace(
                        #[trigger] grown[j],
                    ) by {
                        if j < words.last().len() {
                            assert(grown[j] == words.last()[j]);
                        }
                    }
                }
                assert forall|i: int| 0 <= i < split_words(s).len() implies is_word(
                    #[trigger] split_words(s)[i],
                ) by {
                    if i < words.len() - 1 {
                        assert(split_words(s)[i] == words[i]);
                    }
                }
            } else {
                assert(is_word(seq![s.last()]));
                assert forall|i: int| 0 <= i < split_words(s).len() implies is_word(
                    #[trigger] split_words(s)[i],
                ) by {
                    if i < words.len() {
                        assert(split_words(s)[i] == words[i]);
                    }
                }
            }
        }
    }
}

/// Different numbers have different decimal digits.
pub proof fn lemma_decimal_is_injective(a: nat, b: nat)
    requires
        decimal(a) == decimal(b),
    ensures
        a == b,
    decreases a,
{
    lemma_decimal_length(a);
    lemma_decimal_length(b);
    if a >= 10 {
        let da = decimal(a / 10);
        let db = decimal(b / 10);
        assert(decimal(a).drop_last() =~= da);
        assert(decimal(b).drop_last() =~= db);
        assert(decimal(a).last() == digit_char(a % 10));
        assert(decimal(b).last() == digit_char(b % 10));
        lemma_decimal_is_injective(a / 10, b / 10);
    } else {
        assert(decimal(a)[0] == digit_char(a));
        assert(decimal(b)[0] == digit_char(b));
    }
}

/// A number below ten has one digit, any other has more.
pub proof fn lemma_decimal_length(n: nat)
    ensures
        n < 10 <==> decimal(n).len() == 1,
        decimal(n).len() >= 1,
    decreases n,
{
    if n >= 10 {
        lemma_decimal_length(n / 10);
    }
}

/// A whitespace character in front of a text does not change its words.
pub proof fn lemma_split_skips_leading_whitespace(c: char, s: Seq<char>)
    requires
        is_whitespace(c),
    ensures
        split_words(seq![c] + s) == split_words(s),
    decreases s.len(),
{
    let whole = seq![c] + s;
    if s.len() == 0 {
        assert(whole.last() == c);
        assert(whole.drop_last().len() == 0);
        assert(split_words(whole.drop_last()) =~= Seq::<Seq<char>>::empty());
        assert(split_words(s) =~= Seq::<Seq<char>>::empty());
    } else {
        let before = s.drop_last();
        lemma_split_skips_leading_whitespace(c, before);
        assert(whole.drop_last() =~= seq![c] + before);
        assert(whole.last() == s.last());
        if before.len() > 0 {
            assert((seq![c] + before).last() == before.last());
        } else {
            assert((seq![c] + before).last() == c);
        }
    }
}

/// The whitespace around a text does not change its words.
pub proof fn lemma_split_ignores_outer_whitespace(s: Seq<char>)
    ensures
        split_words(trim_start(s)) == split_words(s),
        split_words(trim_end(s)) == split_words(s),
        split_words(trim(s)) == split_words(s),
    decreases s.len(),
{
    if s.len() > 0 {
        if is_whitespace(s.first()) {
            lemma_split_ignores_outer_whitespace(s.drop_first());
            lemma_split_skips_leading_whitespace(s.first(), s.drop_first());
            assert(seq![s.first()] + s.drop_first() =~= s);
        }
        if is_whitespace(s.last()) {
            lemma_split_ignores_outer_whitespace(s.drop_last());
        }
    }
    lemma_split_trim_end(trim_start(s));
}

/// Trailing whitespace does not change the words of a text.
pub proof fn lemma_split_trim_end(s: Seq<char>)
    ensures
        split_words(trim_end(s)) == split_words(s),
    decreases s.len(),
{
    if s.len() > 0 && is_whitespace(s.last()) {
        lemma_split_trim_end(s.drop_last());
    }
}

/// Whether `c` separates words.
pub fn char_is_whitespace(c: char) -> (r: bool)
    ensures
        r == is_whitespace(c),
{
    let n: u32 = c as u32;
    (0x09 <= n && n <= 0x0D) || n == 0x20 || n == 0x85 || n == 0xA0 || n == 0x1680 || (0x2000 <= n
        && n <= 0x200A) || n == 0x2028 || n == 0x2029 || n == 0x202F || n == 0x205F || n == 0x3000
}

/// Executable form of [`ascii_fold`].
pub fn fold_char(c: char) -> (r: u32)
    ensures
        r == ascii_fold(c),
{
    let n: u32 = c as u32;
    if 0x41 <= n && n <= 0x5A {
        n + 0x20
    } else {
        n
    }
}

/// Compares two words up to the case of ASCII letters.
pub fn words_match(a: &Vec<char>, b: &Vec<char>) -> (r: bool)
    ensures
        r == eq_ignore_ascii_case(a@, b@),
{
    if a.len() != b.len() {
        return false;
    }
    let mut i: usize = 0;
    while i < a.len()
        invariant
            i <= a.len(),
            a.len() == b.len(),
            forall|k: int| 0 <= k < i ==> ascii_fold(#[trigger] a@[k]) == ascii_fold(b@[k]),
        decreases a.len() - i,
    {
        if fold_char(a[i]) != fold_char(b[i]) {
            return false;
        }
        i += 1;
    }
    true
}

/// The characters of a string slice, in order.
pub fn chars_of(s: &str) -> (v: Vec<char>)
    ensures
        v@ == s@,
{
    let mut v: Vec<char> = Vec::new();
    for c in it: s.chars()
        invariant
            v@ == it.seq().take(it.index() as int),
            it.seq() == s@,
    {
        v.push(c);
    }
    v
}

/// Appends one character to a `String`.
///
/// Calls `String::push`; the contract states that the text grows by exactly
/// that character at its end.
#[verifier::external_body]
fn push_char(s: &mut String, c: char)
    ensures
        final(s)@ == old(s)@.push(c),
{
    s.push(c);
}

/// The `String` that holds the given characters.
pub fn string_of(chars: &Vec<char>) -> (s: String)
    ensures
        s@ == chars@,
{
    let mut s = String::new();
    let mut i: usize = 0;
    while i < chars.len()
        invariant
            i <= chars.len(),
            s@ == chars@.take(i as int),
        decreases chars.len() - i,
    {
        push_char(&mut s, chars[i]);
        assert(chars@.take(i as int).push(chars@[i as int]) =~= chars@.take(i + 1));
        i += 1;
    }
    assert(chars@.take(chars.len() as int) =~= chars@);
    s
}

/// Copies `src[from..to]` to the end of `out`.
pub fn extend_from_range(out: &mut Vec<char>, src: &Vec<char>, from: usize, to: usize)
    requires
        from <= to <= src.len(),
    ensures
        final(out)@ == old(out)@ + src@.subrange(from as int, to as int),
{
    let mut i: usize = from;
    while i < to
        invariant
            from <= i <= to <= src.len(),
            out@ == old(out)@ + src@.subrange(from as int, i as int),
        decreases to - i,
    {
        out.push(src[i]);
        assert(src@.subrange(from as int, i as int).push(src@[i as int]) =~= src@.subrange(
            from as int,
            i + 1,
        ));
        i += 1;
    }
}

/// Strips leading and trailing whitespace.
pub fn trim_chars(text: &Vec<char>) -> (r: Vec<char>)
    ensures
        r@ == trim(text@),
{
    let n: usize = text.len();
    let mut start: usize = 0;
    while start < n && char_is_whitespace(text[start])
        invariant
            start <= n,
            n == text.len(),
            forall|k: int| 0 <= k < start ==> is_whitespace(#[trigger] text@[k]),
        decreases n - start,
    {
        start += 1;
    }
    let mut end: usize = n;
    while end > start && char_is_whitespace(text[end - 1])
        invariant
            start <= end <= n,
            n == text.len(),
            forall|k: int| end <= k < n ==> is_whitespace(#[trigger] text@[k]),
        decreases end,
    {
        end -= 1;
    }
    let mut r: Vec<char> = Vec::new();
    extend_from_range(&mut r, text, start, end);
    proof {
        let s = text@;
        lemma_trim_start_is_skip(s, start as int);
        let t = s.skip(start as int);
        assert forall|k: int| end - start <= k < t.len() implies is_whitespace(#[trigger] t[k]) by {
            assert(t[k] == s[k + start]);
        }
        lemma_trim_end_is_take(t, end - start);
        assert(t.take(end - start) =~= s.subrange(start as int, end as int));
        assert(r@ =~= s.subrange(start as int, end as int));
    }
    r
}

/// Splits a text into its whitespace-delimited words.
pub fn split_chars(text: &Vec<char>) -> (words: Vec<Vec<char>>)
    ensures
        views(words@) == split_words(text@),
{
    let mut words: Vec<Vec<char>> = Vec::new();
    let mut current: Vec<char> = Vec::new();
    let mut i: usize = 0;
    while i < text.len()
        invariant
            i <= text.len(),
            current.len() > 0 ==> i > 0 && !is_whitespace(text@[i - 1]),
            current.len() == 0 ==> i == 0 || is_whitespace(text@[i - 1]),
            split_words(text@.take(i as int)) == if current.len() > 0 {
                views(words@).push(current@)
            } else {
                views(words@)
            },
        decreases text.len() - i,
    {
        let c = text[i];
        let ghost before = text@.take(i as int);
        let ghost found = views(words@);
        let ghost open_word = current@;
        proof {
            assert(text@.take(i + 1).drop_last() =~= before);
            assert(text@.take(i + 1).last() == c);
            if i > 0 {
                assert(before.last() == text@[i - 1]);
            }
        }
        if char_is_whitespace(c) {
            if current.len() > 0 {
                words.push(current);
                assert(views(words@) =~= found.push(open_word));
                current = Vec::new();
            }
        } else {
            current.push(c);
            proof {
                if open_word.len() > 0 {
                    assert(found.push(open_word).drop_last() =~= found);
                    assert(split_words(text@.take(i + 1)) =~= found.push(current@));
                } else {
                    assert(current@ =~= seq![c]);
                    assert(split_words(text@.take(i + 1)) =~= found.push(current@));
                }
            }
        }
        i += 1;
    }
    assert(text@.take(text.len() as int) =~= text@);
    if current.len() > 0 {
        let ghost found = views(words@);
        let ghost open_word = current@;
        words.push(current);
        assert(views(words@) =~= found.push(open_word));
    }
    words
}

/// Joins `parts[from..]` with `separator` between neighbours.
pub fn join_from(parts: &Vec<Vec<char>>, from: usize, separator: char) -> (r: Vec<char>)
    requires
        from <= parts.len(),
    ensures
        r@ == join_with(views(parts@).skip(from as int), separator),
{
    let mut r: Vec<char> = Vec::new();
    let mut i: usize = from;
    while i < parts.len()
        invariant
            from <= i <= parts.len(),
            r@ == join_with(views(parts@).subrange(from as int, i as int), separator),
        decreases parts.len() - i,
    {
        let ghost done = views(parts@).subrange(from as int, i as int);
        let ghost next = views(parts@).subrange(from as int, i + 1);
        proof {
            assert(next.drop_last() =~= done);
            assert(next.last() == parts@[i as int]@);
        }
        if i > from {
            r.push(separator);
        }
        let part = &parts[i];
        extend_from_range(&mut r, part, 0, part.len());
        proof {
            assert(part@.subrange(0, part.len() as int) =~= part@);
            if i == from {
                assert(done.len() == 0);
                assert(r@ =~= part@);
            } else {
                assert(r@ =~= join_with(done, separator) + seq![separator] + part@);
            }
        }
        i += 1;
    }
    assert(views(parts@).subrange(from as int, parts.len() as int) =~= views(parts@).skip(
        from as int,
    ));
    r
}

/// Appends the decimal digits of `n` to `out`.
pub fn push_decimal(out: &mut Vec<char>, n: u128)
    ensures
        final(out)@ == old(out)@ + decimal(n as nat),
    decreases n,
{
    if n >= 10 {
        push_decimal(out, n / 10);
    }
    let d: u8 = (n % 10) as u8;
    let c: char = (0x30u8 + d) as char;
    out.push(c);
    proof {
        assert(c == digit_char((n % 10) as nat));
        if n >= 10 {
            assert(final(out)@ =~= old(out)@ + decimal(n as nat));
        } else {
            assert(final(out)@ =~= old(out)@ + decimal(n as nat));
        }
    }
}

/// Appends the characters of a string slice to `out`.
pub fn push_text(out: &mut Vec<char>, s: &str)
    ensures
        final(out)@ == old(out)@ + s@,
{
    let chars = chars_of(s);
    extend_from_range(out, &chars, 0, chars.len());
    assert(chars@.subrange(0, chars.len() as int) =~= chars@);
}

} // verus!
