//! Text as a sequence of characters: words, lines, fields, trimming, joining and decimal numbers.
use vstd::prelude::*;
use vstd::utf8::{decode_utf8, valid_utf8};

verus! {

/// `String::push` appends the given character to the end of the string.
pub assume_specification[ String::push ](s: &mut String, c: char)
    ensures
        final(s)@ == old(s)@.push(c),
;

/// What `String::from_utf8_lossy` makes of `bytes`.
pub uninterp spec fn lossy(bytes: Seq<u8>) -> Seq<char>;

/// Calls `String::from_utf8_lossy`. The text depends on the bytes alone, and bytes that are valid
/// UTF-8 are decoded; where in other bytes the replacement characters stand is not stated.
#[verifier::external_body]
pub(crate) fn lossy_text(bytes: &[u8]) -> (res: String)
    ensures
        res@ == lossy(bytes@),
        valid_utf8(bytes@) ==> res@ == decode_utf8(bytes@),
{
    String::from_utf8_lossy(bytes).to_string()
}

/// The texts held by a sequence of strings.
pub open spec fn texts(strings: Seq<String>) -> Seq<Seq<char>> {
    Seq::new(strings.len(), |i: int| strings[i]@)
}

/// The characters that Unicode gives the `White_Space` property.
pub open spec fn is_space(c: char) -> bool {
    let n = c as int;
    ||| 0x9 <= n <= 0xd
    ||| n == 0x20
    ||| n == 0x85
    ||| n == 0xa0
    ||| n == 0x1680
    ||| 0x2000 <= n <= 0x200a
    ||| n == 0x2028
    ||| n == 0x2029
    ||| n == 0x202f
    ||| n == 0x205f
    ||| n == 0x3000
}

/// Whether `c` is white space.
pub fn is_whitespace(c: char) -> (res: bool)
    ensures
        res == is_space(c),
{
    let n: u32 = c as u32;
    (0x9 <= n && n <= 0xd) || n == 0x20 || n == 0x85 || n == 0xa0 || n == 0x1680 || (0x2000 <= n
        && n <= 0x200a) || n == 0x2028 || n == 0x2029 || n == 0x202f || n == 0x205f || n == 0x3000
}

/// The characters of `s`, in order.
pub fn chars_of(s: &str) -> (res: Vec<char>)
    ensures
        res@ == s@,
{
    let mut out: Vec<char> = Vec::new();
    for c in it: s.chars()
        invariant
            it.seq() == s@,
            out@ == s@.take(it.index()),
    {
        out.push(c);
        assert(s@.take(it.index() + 1) =~= s@.take(it.index()).push(c));
    }
    assert(s@.take(s@.len() as int) =~= s@);
    out
}

/// The text of `chars` from index `from` up to, not including, index `to`.
fn string_of(chars: &Vec<char>, from: usize, to: usize) -> (res: String)
    requires
        from <= to <= chars@.len(),
    ensures
        res@ == chars@.subrange(from as int, to as int),
{
    let mut out = String::new();
    let mut i: usize = from;
    assert(chars@.subrange(from as int, from as int) =~= Seq::<char>::empty());
    while i < to
        invariant
            from <= i <= to <= chars@.len(),
            out@ == chars@.subrange(from as int, i as int),
        decreases to - i,
    {
        out.push(chars[i]);
        assert(chars@.subrange(from as int, i + 1) =~= chars@.subrange(from as int, i as int).push(
            chars@[i as int],
        ));
        i = i + 1;
    }
    out
}

/// Whether `a` and `b` hold the same text.
pub fn same_text(a: &str, b: &str) -> (res: bool)
    ensures
        res == (a@ == b@),
{
    let x = chars_of(a);
    let y = chars_of(b);
    if x.len() != y.len() {
        return false;
    }
    let mut i: usize = 0;
    while i < x.len()
        invariant
            x@ == a@,
            y@ == b@,
            x@.len() == y@.len(),
            i <= x@.len(),
            forall|j: int| 0 <= j < i ==> x@[j] == y@[j],
        decreases x@.len() - i,
    {
        if x[i] != y[i] {
            return false;
        }
        i = i + 1;
    }
    assert(a@ =~= b@);
    true
}

/// The length of the longest prefix of `s` without white space.
pub open spec fn word_len(s: Seq<char>) -> nat
    decreases s.len(),
{
    if s.len() == 0 || is_space(s[0]) {
        0
    } else {
        1 + word_len(s.drop_first())
    }
}

/// The maximal runs of characters that are not white space, in order.
pub open spec fn words(s: Seq<char>) -> Seq<Seq<char>>
    decreases s.len(),
{
    if s.len() == 0 {
        Seq::empty()
    } else if is_space(s[0]) {
        words(s.drop_first())
    } else {
        proof {
            lemma_word_len_bounds(s);
        }
        let n = word_len(s) as int;
        seq![s.take(n)] + words(s.skip(n))
    }
}

/// Whether `s` can be a word: it is not empty and holds no white space.
pub open spec fn is_word(s: Seq<char>) -> bool {
    &&& s.len() > 0
    &&& forall|i: int| 0 <= i < s.len() ==> !is_space(#[trigger] s[i])
}

proof fn lemma_word_len(w: Seq<char>, rest: Seq<char>)
    requires
        forall|i: int| 0 <= i < w.len() ==> !is_space(#[trigger] w[i]),
        rest.len() == 0 || is_space(rest[0]),
    ensures
        word_len(w + rest) == w.len(),
    decreases w.len(),
{
    if w.len() == 0 {
        assert(w + rest =~= rest);
    } else {
        assert((w + rest)[0] == w[0]);
        assert((w + rest).drop_first() =~= w.drop_first() + rest);
        lemma_word_len(w.drop_first(), rest);
    }
}

/// A word at the front of a text, up to the end or to white space, is the text's first word.
pub proof fn lemma_words_first(w: Seq<char>, rest: Seq<char>)
    requires
        is_word(w),
        rest.len() == 0 || is_space(rest[0]),
    ensures
        words(w + rest) == seq![w] + words(rest),
{
    lemma_word_len(w, rest);
    assert((w + rest)[0] == w[0]);
    assert((w + rest).take(w.len() as int) =~= w);
    assert((w + rest).skip(w.len() as int) =~= rest);
}

/// What stands before and at the length of the first word.
pub proof fn lemma_word_len_bounds(s: Seq<char>)
    ensures
        word_len(s) <= s.len(),
        forall|i: int| 0 <= i < word_len(s) ==> !is_space(#[trigger] s[i]),
        word_len(s) < s.len() ==> is_space(s[word_len(s) as int]),
    decreases s.len(),
{
    if s.len() == 0 || is_space(s[0]) {
    } else {
        let t = s.drop_first();
        lemma_word_len_bounds(t);
        assert forall|i: int| 0 <= i < word_len(s) implies !is_space(#[trigger] s[i]) by {
            if i > 0 {
                assert(s[i] == t[i - 1]);
            }
        }
        if word_len(s) < s.len() {
            assert(s[word_len(s) as int] == t[word_len(t) as int]);
        }
    }
}

/// White space between two texts keeps their words apart.
pub proof fn lemma_words_apart(a: Seq<char>, sep: char, b: Seq<char>)
    requires
        is_space(sep),
    ensures
        words(a + seq![sep] + b) == words(a) + words(b),
    decreases a.len(),
{
    let whole = a + seq![sep] + b;
    if a.len() == 0 {
        assert(whole[0] == sep);
        assert(whole.drop_first() =~= b);
        assert(words(a) + words(b) =~= words(b));
    } else if is_space(a[0]) {
        assert(whole[0] == a[0]);
        assert(whole.drop_first() =~= a.drop_first() + seq![sep] + b);
        lemma_words_apart(a.drop_first(), sep, b);
    } else {
        lemma_word_len_bounds(a);
        let n = word_len(a) as int;
        let w = a.take(n);
        let r = a.skip(n);
        assert(a =~= w + r);
        let rest = r + seq![sep] + b;
        assert(whole =~= w + rest);
        assert(is_word(w)) by {
            assert(w[0] == a[0]);
        }
        assert(is_space(rest[0])) by {
            if r.len() > 0 {
                assert(rest[0] == a[n]);
            } else {
                assert(rest[0] == sep);
            }
        }
        lemma_words_first(w, rest);
        lemma_words_first(w, r);
        lemma_words_apart(r, sep, b);
        assert(words(whole) =~= words(a) + words(b));
    }
}

/// The words of `s`, in order.
pub fn split_words(s: &str) -> (res: Vec<String>)
    ensures
        texts(res@) == words(s@),
{
    let chars = chars_of(s);
    let mut done: Vec<String> = Vec::new();
    let mut start: usize = 0;
    let mut i: usize = 0;
    assert(s@.skip(0) =~= s@);
    assert(texts(done@) + words(s@) =~= words(s@));
    while i < chars.len()
        invariant
            chars@ == s@,
            start <= i <= chars@.len(),
            forall|j: int| start <= j < i ==> !is_space(#[trigger] chars@[j]),
            words(s@) == texts(done@) + words(s@.skip(start as int)),
        decreases chars@.len() - i,
    {
        let ghost before = texts(done@);
        let ghost tail = s@.skip(start as int);
        if is_whitespace(chars[i]) {
            if start < i {
                let word = string_of(&chars, start, i);
                done.push(word);
                proof {
                    assert(tail =~= word@ + s@.skip(i as int));
                    lemma_words_first(word@, s@.skip(i as int));
                    assert(texts(done@) =~= before.push(word@));
                    assert(words(s@) =~= texts(done@) + words(s@.skip(i as int)));
                }
            }
            assert(s@.skip(i as int).drop_first() =~= s@.skip(i + 1));
            start = i + 1;
        }
        i = i + 1;
    }
    let ghost before = texts(done@);
    let ghost tail = s@.skip(start as int);
    if start < i {
        let word = string_of(&chars, start, i);
        done.push(word);
        proof {
            assert(tail =~= word@ + Seq::<char>::empty());
            lemma_words_first(word@, Seq::empty());
            assert(texts(done@) =~= before.push(word@));
        }
    }
    assert(texts(done@) =~= words(s@));
    done
}

/// The length of the longest prefix of `s` without the character `c`.
pub open spec fn until(s: Seq<char>, c: char) -> nat
    decreases s.len(),
{
    if s.len() == 0 || s[0] == c {
        0
    } else {
        1 + until(s.drop_first(), c)
    }
}

/// What stands before and at the first `c`.
pub proof fn lemma_until_bounds(s: Seq<char>, c: char)
    ensures
        until(s, c) <= s.len(),
        forall|i: int| 0 <= i < until(s, c) ==> #[trigger] s[i] != c,
        until(s, c) < s.len() ==> s[until(s, c) as int] == c,
    decreases s.len(),
{
    if s.len() == 0 || s[0] == c {
    } else {
        let t = s.drop_first();
        lemma_until_bounds(t, c);
        assert forall|i: int| 0 <= i < until(s, c) implies #[trigger] s[i] != c by {
            if i > 0 {
                assert(s[i] == t[i - 1]);
            }
        }
        if until(s, c) < s.len() {
            assert(s[until(s, c) as int] == t[until(t, c) as int]);
        }
    }
}

/// Where the first `c` stands behind text without it.
pub proof fn lemma_until(front: Seq<char>, rest: Seq<char>, c: char)
    requires
        !front.contains(c),
        rest.len() == 0 || rest[0] == c,
    ensures
        until(front + rest, c) == front.len(),
    decreases front.len(),
{
    if front.len() == 0 {
        assert(front + rest =~= rest);
    } else {
        assert((front + rest)[0] == front[0]);
        assert((front + rest).drop_first() =~= front.drop_first() + rest);
        assert(!front.drop_first().contains(c)) by {
            assert forall|i: int| 0 <= i < front.drop_first().len() implies front.drop_first()[i]
                != c by {
                assert(front.drop_first()[i] == front[i + 1]);
            }
        }
        lemma_until(front.drop_first(), rest, c);
    }
}

/// `s` without a carriage return at its end.
pub open spec fn strip_cr(s: Seq<char>) -> Seq<char> {
    if s.len() > 0 && s.last() == '\r' {
        s.drop_last()
    } else {
        s
    }
}

/// The lines of `s`: each ends at a newline, with or without a carriage return before it, and
/// the last may also end with the text. The line endings are left out.
pub open spec fn lines(s: Seq<char>) -> Seq<Seq<char>>
    decreases s.len(),
{
    if s.len() == 0 {
        Seq::empty()
    } else {
        proof {
            lemma_until_bounds(s, '\n');
        }
        let n = until(s, '\n') as int;
        if n == s.len() {
            seq![s]
        } else {
            seq![strip_cr(s.take(n))] + lines(s.skip(n + 1))
        }
    }
}

/// The lines of `s`, in order.
pub fn split_lines(s: &str) -> (res: Vec<String>)
    ensures
        texts(res@) == lines(s@),
{
    let chars = chars_of(s);
    let mut done: Vec<String> = Vec::new();
    let mut start: usize = 0;
    let mut i: usize = 0;
    assert(s@.skip(0) =~= s@);
    assert(texts(done@) + lines(s@) =~= lines(s@));
    while i < chars.len()
        invariant
            chars@ == s@,
            start <= i <= chars@.len(),
            forall|j: int| start <= j < i ==> #[trigger] chars@[j] != '\n',
            lines(s@) == texts(done@) + lines(s@.skip(start as int)),
        decreases chars@.len() - i,
    {
        if chars[i] == '\n' {
            let ghost before = texts(done@);
            let ghost tail = s@.skip(start as int);
            let ghost front = s@.subrange(start as int, i as int);
            let end: usize = if start < i && chars[i - 1] == '\r' {
                i - 1
            } else {
                i
            };
            let line = string_of(&chars, start, end);
            done.push(line);
            proof {
                assert(line@ =~= strip_cr(front));
                assert(tail =~= front + s@.skip(i as int));
                lemma_until(front, s@.skip(i as int), '\n');
                assert(tail.take(front.len() as int) =~= front);
                assert(tail.skip(front.len() as int + 1) =~= s@.skip(i + 1));
                assert(texts(done@) =~= before.push(line@));
                assert(lines(s@) =~= texts(done@) + lines(s@.skip(i + 1)));
            }
            start = i + 1;
        }
        i = i + 1;
    }
    if start < i {
        let ghost before = texts(done@);
        let ghost tail = s@.skip(start as int);
        let line = string_of(&chars, start, i);
        done.push(line);
        proof {
            assert(line@ =~= tail);
            assert(tail =~= tail + Seq::<char>::empty());
            lemma_until(tail, Seq::empty(), '\n');
            assert(texts(done@) =~= before.push(line@));
        }
    }
    assert(texts(done@) =~= lines(s@));
    done
}

/// The parts of `s` between the occurrences of `sep`, at most `limit` of them: the last holds
/// all that is left.
pub open spec fn fields(s: Seq<char>, sep: char, limit: nat) -> Seq<Seq<char>>
    decreases limit,
{
    let n = until(s, sep) as int;
    if limit <= 1 || n == s.len() {
        seq![s]
    } else {
        seq![s.take(n)] + fields(s.skip(n + 1), sep, (limit - 1) as nat)
    }
}

/// The parts of `s` between the occurrences of `sep`, at most `limit` of them.
pub fn split_fields(s: &str, sep: char, limit: usize) -> (res: Vec<String>)
    requires
        limit >= 1,
    ensures
        texts(res@) == fields(s@, sep, limit as nat),
{
    let chars = chars_of(s);
    let mut done: Vec<String> = Vec::new();
    let mut start: usize = 0;
    let mut i: usize = 0;
    assert(s@.skip(0) =~= s@);
    assert(texts(done@) + fields(s@, sep, limit as nat) =~= fields(s@, sep, limit as nat));
    while i < chars.len()
        invariant
            chars@ == s@,
            start <= i <= chars@.len(),
            done@.len() < limit,
            done@.len() + 1 < limit ==> forall|j: int|
                start <= j < i ==> #[trigger] chars@[j] != sep,
            fields(s@, sep, limit as nat) == texts(done@) + fields(
                s@.skip(start as int),
                sep,
                (limit - done@.len()) as nat,
            ),
        decreases chars@.len() - i,
    {
        if chars[i] == sep && limit - done.len() > 1 {
            let ghost before = texts(done@);
            let ghost tail = s@.skip(start as int);
            let field = string_of(&chars, start, i);
            done.push(field);
            proof {
                assert(tail =~= field@ + s@.skip(i as int));
                lemma_until(field@, s@.skip(i as int), sep);
                assert(tail.take(field@.len() as int) =~= field@);
                assert(tail.skip(field@.len() as int + 1) =~= s@.skip(i + 1));
                assert(texts(done@) =~= before.push(field@));
                assert(fields(s@, sep, limit as nat) =~= texts(done@) + fields(
                    s@.skip(i + 1),
                    sep,
                    (limit - done@.len()) as nat,
                ));
            }
            start = i + 1;
        }
        i = i + 1;
    }
    let ghost before = texts(done@);
    let ghost tail = s@.skip(start as int);
    let ghost left = (limit - done@.len()) as nat;
    let field = string_of(&chars, start, i);
    done.push(field);
    proof {
        assert(field@ =~= tail);
        if left > 1 {
            assert(tail =~= tail + Seq::<char>::empty());
            lemma_until(tail, Seq::empty(), sep);
        }
        assert(fields(tail, sep, left) == seq![tail]);
        assert(texts(done@) =~= before.push(field@));
    }
    assert(texts(done@) =~= fields(s@, sep, limit as nat));
    done
}

/// `s` without the white space at its front.
pub open spec fn trim_start(s: Seq<char>) -> Seq<char>
    decreases s.len(),
{
    if s.len() > 0 && is_space(s[0]) {
        trim_start(s.drop_first())
    } else {
        s
    }
}

/// `s` without the white space at its end.
pub open spec fn trim_end(s: Seq<char>) -> Seq<char>
    decreases s.len(),
{
    if s.len() > 0 && is_space(s.last()) {
        trim_end(s.drop_last())
    } else {
        s
    }
}

/// `s` without the white space at its front and at its end.
pub open spec fn trim(s: Seq<char>) -> Seq<char> {
    trim_end(trim_start(s))
}

/// `s` without the white space at its front and at its end.
pub fn trim_text(s: &str) -> (res: String)
    ensures
        res@ == trim(s@),
{
    let chars = chars_of(s);
    let mut from: usize = 0;
    assert(s@.skip(0) =~= s@);
    while from < chars.len() && is_whitespace(chars[from])
        invariant
            chars@ == s@,
            from <= chars@.len(),
            trim_start(s@.skip(from as int)) == trim_start(s@),
        decreases chars@.len() - from,
    {
        assert(s@.skip(from as int).drop_first() =~= s@.skip(from + 1));
        from = from + 1;
    }
    let ghost front = s@.skip(from as int);
    let mut to: usize = chars.len();
    assert(s@.subrange(from as int, to as int) =~= front);
    while from < to && is_whitespace(chars[to - 1])
        invariant
            chars@ == s@,
            from <= to <= chars@.len(),
            trim_end(s@.subrange(from as int, to as int)) == trim_end(front),
        decreases to - from,
    {
        assert(s@.subrange(from as int, to as int).drop_last() =~= s@.subrange(
            from as int,
            to - 1,
        ));
        to = to - 1;
    }
    string_of(&chars, from, to)
}

/// The texts of `parts` one after another, with `sep` between each two.
pub open spec fn join(parts: Seq<Seq<char>>, sep: Seq<char>) -> Seq<char>
    decreases parts.len(),
{
    if parts.len() == 0 {
        Seq::empty()
    } else if parts.len() == 1 {
        parts[0]
    } else {
        join(parts.drop_last(), sep) + sep + parts.last()
    }
}

/// The texts of `parts` one after another, with `sep` between each two.
pub fn join_texts(parts: &Vec<String>, sep: &str) -> (res: String)
    ensures
        res@ == join(texts(parts@), sep@),
{
    let mut out = String::new();
    let mut i: usize = 0;
    while i < parts.len()
        invariant
            i <= parts@.len(),
            out@ == join(texts(parts@).take(i as int), sep@),
        decreases parts@.len() - i,
    {
        if i > 0 {
            out.append(sep);
        }
        out.append(parts[i].as_str());
        assert(texts(parts@).take(i + 1).drop_last() =~= texts(parts@).take(i as int));
        assert(out@ =~= join(texts(parts@).take(i + 1), sep@));
        i = i + 1;
    }
    assert(texts(parts@).take(i as int) =~= texts(parts@));
    out
}

/// The character of the decimal digit `d`.
pub open spec fn digit(d: nat) -> char {
    ('0' as int + d) as char
}

/// The decimal digits of `n`, without leading zeros.
pub open spec fn decimal(n: nat) -> Seq<char>
    decreases n,
{
    if n < 10 {
        seq![digit(n)]
    } else {
        decimal(n / 10).push(digit(n % 10))
    }
}

/// Appends the decimal digits of `n`.
pub fn push_decimal(out: &mut String, n: u64)
    ensures
        final(out)@ == old(out)@ + decimal(n as nat),
    decreases n,
{
    if n >= 10 {
        push_decimal(out, n / 10);
    }
    out.push((48 + (n % 10) as u8) as char);
    assert(out@ =~= old(out)@ + decimal(n as nat));
}

/// Each string of a sequence counts with the text that it holds.
pub proof fn law_texts_are_what_the_strings_hold(strings: Seq<String>, i: int)
    requires
        0 <= i < strings.len(),
    ensures
        texts(strings).len() == strings.len(),
        texts(strings)[i] == strings[i]@,
{
}

/// The words of a text are its maximal runs without white space: white space in front counts for
/// nothing, and a run that ends with the text or at white space is one word, however long.
pub proof fn law_words_are_maximal_runs(run: Seq<char>, space: char, rest: Seq<char>)
    requires
        run.len() > 0,
        forall|i: int| 0 <= i < run.len() ==> !is_space(#[trigger] run[i]),
        is_space(space),
    ensures
        words(Seq::empty()) == Seq::<Seq<char>>::empty(),
        words(seq![space] + rest) == words(rest),
        words(run) == seq![run],
        words(run + seq![space] + rest) == seq![run] + words(rest),
{
    assert(run + Seq::<char>::empty() =~= run);
    lemma_words_first(run, Seq::empty());
    assert((seq![space] + rest).drop_first() =~= rest);
    assert((seq![space] + rest)[0] == space);
    assert(run + seq![space] + rest =~= run + (seq![space] + rest));
    lemma_words_first(run, seq![space] + rest);
    assert(words(run) =~= seq![run]);
}

/// The lines of a text are what stands before each line break and behind the last: one carriage
/// return before the line break belongs to it, and an empty end is no line.
pub proof fn law_lines_end_at_line_breaks(line: Seq<char>, rest: Seq<char>)
    requires
        !line.contains('\n'),
    ensures
        lines(Seq::empty()) == Seq::<Seq<char>>::empty(),
        line.len() > 0 ==> lines(line) == seq![line],
        line.len() == 0 || line.last() != '\r' ==> lines(line + seq!['\n'] + rest) == seq![line]
            + lines(rest),
        lines(line + seq!['\r', '\n'] + rest) == seq![line] + lines(rest),
{
    assert(line + Seq::<char>::empty() =~= line);
    lemma_until(line, Seq::empty(), '\n');
    let tail = seq!['\n'] + rest;
    let plain = line + seq!['\n'] + rest;
    assert(plain =~= line + tail);
    lemma_until(line, tail, '\n');
    assert(plain.take(line.len() as int) =~= line);
    assert(plain.skip(line.len() as int + 1) =~= rest);
    let held = line.push('\r');
    assert(!held.contains('\n')) by {
        assert forall|i: int| 0 <= i < held.len() implies held[i] != '\n' by {
            if i < line.len() {
                assert(held[i] == line[i]);
            }
        }
    }
    let ended = line + seq!['\r', '\n'] + rest;
    assert(ended =~= held + tail);
    lemma_until(held, tail, '\n');
    assert(ended.take(held.len() as int) =~= held);
    assert(ended.skip(held.len() as int + 1) =~= rest);
    assert(held.drop_last() =~= line);
}

/// Joining two lists one behind the other puts the separator between what each gives; a single
/// text stays as it is, and no text gives the empty one.
pub proof fn law_join_splits_anywhere(a: Seq<Seq<char>>, b: Seq<Seq<char>>, sep: Seq<char>)
    ensures
        join(Seq::empty(), sep) == Seq::<char>::empty(),
        a.len() == 1 ==> join(a, sep) == a[0],
        a.len() > 0 && b.len() > 0 ==> join(a + b, sep) == join(a, sep) + sep + join(b, sep),
    decreases b.len(),
{
    if a.len() > 0 && b.len() > 0 {
        let whole = a + b;
        assert(whole.drop_last() =~= a + b.drop_last());
        assert(whole.last() == b.last());
        if b.len() == 1 {
            assert(whole.drop_last() =~= a);
            assert(b.last() == b[0]);
        } else {
            law_join_splits_anywhere(a, b.drop_last(), sep);
            assert(join(a, sep) + sep + join(b.drop_last(), sep) + sep + b.last() =~= join(a, sep)
                + sep + (join(b.drop_last(), sep) + sep + b.last()));
        }
    }
}

/// Lines that are put together with line breaks between them read back as they were.
pub proof fn law_joined_lines_read_back(parts: Seq<Seq<char>>)
    requires
        forall|i: int|
            0 <= i < parts.len() ==> (#[trigger] parts[i]).len() > 0 && !parts[i].contains('\n')
                && parts[i].last() != '\r',
    ensures
        lines(join(parts, "\n"@)) == parts,
    decreases parts.len(),
{
    reveal_strlit("\n");
    assert("\n"@ =~= seq!['\n']);
    let none = Seq::<Seq<char>>::empty();
    if parts.len() == 0 {
        law_lines_end_at_line_breaks(Seq::empty(), Seq::empty());
        assert(parts =~= none);
    } else {
        let first = parts[0];
        let rest = parts.drop_first();
        assert forall|i: int| 0 <= i < rest.len() implies (#[trigger] rest[i]).len() > 0
            && !rest[i].contains('\n') && rest[i].last() != '\r' by {
            assert(rest[i] == parts[i + 1]);
        }
        law_joined_lines_read_back(rest);
        law_join_splits_anywhere(seq![first], rest, "\n"@);
        assert(parts =~= seq![first] + rest);
        law_lines_end_at_line_breaks(first, join(rest, "\n"@));
        if rest.len() == 0 {
            assert(parts =~= seq![first]);
        }
        assert(lines(join(parts, "\n"@)) =~= parts);
    }
}

/// The fields of a text, put together again with the separator between them, are the text. There
/// are at most as many as allowed; none but the last of a full list holds a separator.
pub proof fn law_fields_make_up_the_text(s: Seq<char>, sep: char, limit: nat)
    requires
        limit >= 1,
    ensures
        join(fields(s, sep, limit), seq![sep]) == s,
        1 <= fields(s, sep, limit).len() <= limit,
        forall|i: int|
            0 <= i < fields(s, sep, limit).len() - 1 ==> !(#[trigger] fields(
                s,
                sep,
                limit,
            )[i]).contains(sep),
        fields(s, sep, limit).len() < limit ==> !fields(s, sep, limit).last().contains(sep),
    decreases limit,
{
    lemma_until_bounds(s, sep);
    let n = until(s, sep) as int;
    if limit > 1 && n < s.len() {
        let rest = s.skip(n + 1);
        let more = fields(rest, sep, (limit - 1) as nat);
        let all = fields(s, sep, limit);
        law_fields_make_up_the_text(rest, sep, (limit - 1) as nat);
        law_join_splits_anywhere(seq![s.take(n)], more, seq![sep]);
        assert(s.take(n) + seq![sep] + rest =~= s);
        assert(!s.take(n).contains(sep)) by {
            assert forall|i: int| 0 <= i < n implies s.take(n)[i] != sep by {
                assert(s.take(n)[i] == s[i]);
            }
        }
        assert forall|i: int| 0 <= i < all.len() - 1 implies !(#[trigger] all[i]).contains(
            sep,
        ) by {
            if i > 0 {
                assert(all[i] == more[i - 1]);
            }
        }
        assert(all.last() == more.last());
    } else {
        law_join_splits_anywhere(seq![s], Seq::empty(), seq![sep]);
        if n == s.len() {
            assert(!s.contains(sep));
        }
    }
}

proof fn lemma_trim_start(space: Seq<char>, rest: Seq<char>)
    requires
        forall|i: int| 0 <= i < space.len() ==> is_space(#[trigger] space[i]),
    ensures
        trim_start(space + rest) == trim_start(rest),
    decreases space.len(),
{
    if space.len() == 0 {
        assert(space + rest =~= rest);
    } else {
        assert((space + rest)[0] == space[0]);
        assert((space + rest).drop_first() =~= space.drop_first() + rest);
        lemma_trim_start(space.drop_first(), rest);
    }
}

proof fn lemma_trim_end(rest: Seq<char>, space: Seq<char>)
    requires
        forall|i: int| 0 <= i < space.len() ==> is_space(#[trigger] space[i]),
    ensures
        trim_end(rest + space) == trim_end(rest),
    decreases space.len(),
{
    if space.len() == 0 {
        assert(rest + space =~= rest);
    } else {
        assert((rest + space).last() == space[space.len() - 1]);
        assert((rest + space).drop_last() =~= rest + space.drop_last());
        lemma_trim_end(rest, space.drop_last());
    }
}

/// Trimming takes away exactly the white space around a text: what neither starts nor ends with
/// white space stays whole, whatever it holds and however long it is.
pub proof fn law_trim_takes_only_what_is_around(
    before: Seq<char>,
    text: Seq<char>,
    behind: Seq<char>,
)
    requires
        forall|i: int| 0 <= i < before.len() ==> is_space(#[trigger] before[i]),
        forall|i: int| 0 <= i < behind.len() ==> is_space(#[trigger] behind[i]),
        text.len() > 0 ==> !is_space(text[0]) && !is_space(text.last()),
    ensures
        trim(before + text + behind) == text,
{
    assert(before + text + behind =~= before + (text + behind));
    lemma_trim_start(before, text + behind);
    if text.len() > 0 {
        assert((text + behind)[0] == text[0]);
        lemma_trim_end(text, behind);
    } else {
        assert(text + behind =~= behind + Seq::<char>::empty());
        lemma_trim_start(behind, Seq::empty());
        assert(trim_start(Seq::<char>::empty()) =~= Seq::<char>::empty());
        assert(text =~= Seq::<char>::empty());
    }
}

/// The number that a text of decimal digits stands for.
pub open spec fn decimal_value(s: Seq<char>) -> int
    decreases s.len(),
{
    if s.len() == 0 {
        0
    } else {
        10 * decimal_value(s.drop_last()) + (s.last() as int - '0' as int)
    }
}

/// The decimal text of a number is made of digits, stands for that number, and has no zero in
/// front.
pub proof fn law_decimal_reads_back(n: nat)
    ensures
        decimal_value(decimal(n)) == n,
        decimal(n).len() > 0,
        forall|i: int| 0 <= i < decimal(n).len() ==> '0' <= #[trigger] decimal(n)[i] <= '9',
        decimal(n).len() > 1 ==> decimal(n)[0] != '0',
        n > 0 ==> decimal(n)[0] != '0',
    decreases n,
{
    if n < 10 {
        assert(decimal(n).drop_last() =~= Seq::<char>::empty());
        assert(decimal(n).last() == digit(n));
        assert(decimal_value(Seq::empty()) == 0);
    } else {
        law_decimal_reads_back(n / 10);
        let front = decimal(n / 10);
        assert(decimal(n).drop_last() =~= front);
        assert forall|i: int| 0 <= i < decimal(n).len() implies '0' <= #[trigger] decimal(n)[i]
            <= '9' by {
            if i < front.len() {
                assert(decimal(n)[i] == front[i]);
            }
        }
        assert(decimal(n)[0] == front[0]);
    }
}

proof fn lemma_trim_keeps(s: Seq<char>, i: int)
    requires
        0 <= i < s.len(),
        !is_space(s[i]),
    ensures
        trim_start(s).len() > 0,
        !is_space(trim_start(s)[0]),
        trim_end(s).len() > 0,
    decreases s.len(),
{
    if is_space(s[0]) {
        assert(s.drop_first()[i - 1] == s[i]);
        lemma_trim_keeps(s.drop_first(), i - 1);
    }
    if is_space(s.last()) {
        assert(s.drop_last()[i] == s[i]);
        lemma_trim_keeps(s.drop_last(), i);
    }
}

/// Trimming leaves nothing exactly where a text holds nothing but white space.
pub proof fn law_trim_empties_only_white_space(s: Seq<char>)
    ensures
        trim(s).len() == 0 <==> forall|i: int| 0 <= i < s.len() ==> is_space(#[trigger] s[i]),
{
    if forall|i: int| 0 <= i < s.len() ==> is_space(#[trigger] s[i]) {
        assert(s + Seq::<char>::empty() + Seq::<char>::empty() =~= s);
        law_trim_takes_only_what_is_around(s, Seq::empty(), Seq::empty());
    } else {
        let i = choose|i: int| 0 <= i < s.len() && !is_space(#[trigger] s[i]);
        lemma_trim_keeps(s, i);
        lemma_trim_keeps(trim_start(s), 0);
    }
}

/// Whether `part` stands somewhere in `s`.
pub open spec fn occurs(s: Seq<char>, part: Seq<char>) -> bool {
    exists|i: int|
        0 <= i && i + part.len() <= s.len() && #[trigger] s.subrange(i, i + part.len()) == part
}

/// What stands between two texts occurs in the whole.
pub proof fn lemma_occurs(before: Seq<char>, part: Seq<char>, behind: Seq<char>)
    ensures
        occurs(before + part + behind, part),
{
    let s = before + part + behind;
    let i = before.len() as int;
    assert(s.subrange(i, i + part.len()) =~= part);
}

} // verus!
