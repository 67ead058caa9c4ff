//! Characters and numerals: the lexical layer under the assembler, the
//! disassembler and the debugger's command line.

use vstd::prelude::*;
use vstd::string::*;

verus! {

/// The characters of a string.
pub fn chars_of(s: &str) -> (v: Vec<char>)
    ensures
        v@ == s@,
{
    let mut v: Vec<char> = Vec::new();
    for c in it: s.chars()
        invariant
            v@ == it.seq().take(it.index() as int),
            it.seq() == s@,
    {
        v.push(c);
    }
    v
}

/// Whether `a` holds exactly the characters of `lit`.
pub fn same_text(a: &[char], lit: &str) -> (b: bool)
    ensures
        b == (a@ == lit@),
{
    let l = chars_of(lit);
    same_chars(a, l.as_slice())
}

/// Calls `String::push`, which appends the character to the end of the text.
#[verifier::external_body]
fn push_char(out: &mut String, c: char)
    ensures
        final(out)@ == old(out)@.push(c),
{
    out.push(c);
}

/// Appends the characters of `chars` to `out`.
pub fn append_chars(out: &mut String, chars: &[char])
    ensures
        final(out)@ == old(out)@ + chars@,
{
    let mut i: usize = 0;
    while i < chars.len()
        invariant
            i <= chars.len(),
            out@ == old(out)@ + chars@.take(i as int),
        decreases chars.len() - i,
    {
        push_char(out, chars[i]);
        assert(chars@.take(i + 1) =~= chars@.take(i as int).push(chars@[i as int]));
        assert(out@ =~= old(out)@ + chars@.take(i + 1));
        i += 1;
    }
    assert(chars@.take(i as int) =~= chars@);
}

/// Whether `a` and `b` hold the same characters.
pub fn same_chars(a: &[char], b: &[char]) -> (same: bool)
    ensures
        same == (a@ == b@),
{
    if a.len() != b.len() {
        return false;
    }
    let mut i: usize = 0;
    while i < a.len()
        invariant
            i <= a.len(),
            a.len() == b.len(),
            forall|j: int| 0 <= j < i ==> a@[j] == b@[j],
        decreases a.len() - i,
    {
        if a[i] != b[i] {
            return false;
        }
        i += 1;
    }
    assert(a@ =~= b@);
    true
}

/// A copy of the characters of `s` from `from` up to `to`.
pub fn copy_range(s: &[char], from: usize, to: usize) -> (v: Vec<char>)
    requires
        from <= to <= s@.len(),
    ensures
        v@ == s@.subrange(from as int, to as int),
{
    let mut v: Vec<char> = Vec::new();
    let mut i: usize = from;
    while i < to
        invariant
            from <= i <= to,
            to <= s@.len(),
            v@ == s@.subrange(from as int, i as int),
        decreases to - i,
    {
        v.push(s[i]);
        assert(s@.subrange(from as int, i as int).push(s@[i as int]) =~= s@.subrange(
            from as int,
            i + 1,
        ));
        i += 1;
    }
    v
}

/// White space: the characters with the Unicode property `White_Space`.
pub open spec fn is_space(c: char) -> bool {
    let u = c as u32;
    ||| 0x09 <= u <= 0x0d
    ||| u == 0x20
    ||| u == 0x85
    ||| u == 0xa0
    ||| u == 0x1680
    ||| 0x2000 <= u <= 0x200a
    ||| u == 0x2028
    ||| u == 0x2029
    ||| u == 0x202f
    ||| u == 0x205f
    ||| u == 0x3000
}

/// The classes of characters that the scanners tell apart.
#[derive(Debug, Clone, Copy, PartialEq, Eq, Structural)]
pub enum CharClass {
    /// White space.
    Space,
    /// White space or a comma: what separates operands.
    Separator,
    /// The line feed.
    LineBreak,
    /// `#`, which starts a comment.
    CommentMark,
    /// `(`, which opens the register of a memory operand.
    OpenParen,
}

/// Whether `c` belongs to class `k`.
pub open spec fn in_class(c: char, k: CharClass) -> bool {
    match k {
        CharClass::Space => is_space(c),
        CharClass::Separator => is_space(c) || c == ',',
        CharClass::LineBreak => c == '\n',
        CharClass::CommentMark => c == '#',
        CharClass::OpenParen => c == '(',
    }
}

/// Whether `c` belongs to class `k`.
pub fn has_class(c: char, k: CharClass) -> (b: bool)
    ensures
        b == in_class(c, k),
{
    let u = c as u32;
    let space = (0x09 <= u && u <= 0x0d) || u == 0x20 || u == 0x85 || u == 0xa0 || u == 0x1680 || (
    0x2000 <= u && u <= 0x200a) || u == 0x2028 || u == 0x2029 || u == 0x202f || u == 0x205f || u
        == 0x3000;
    match k {
        CharClass::Space => space,
        CharClass::Separator => space || c == ',',
        CharClass::LineBreak => c == '\n',
        CharClass::CommentMark => c == '#',
        CharClass::OpenParen => c == '(',
    }
}

/// The length of the longest prefix of `s` whose characters all are in
/// class `k` (for `inside`) or all are outside it (for `!inside`).
pub open spec fn run_len(s: Seq<char>, k: CharClass, inside: bool) -> nat
    decreases s.len(),
{
    if s.len() > 0 && in_class(s[0], k) == inside {
        1 + run_len(s.drop_first(), k, inside)
    } else {
        0
    }
}

/// The length of the longest suffix of `s` whose characters all are in class `k`.
pub open spec fn tail_len(s: Seq<char>, k: CharClass) -> nat
    decreases s.len(),
{
    if s.len() > 0 && in_class(s.last(), k) {
        1 + tail_len(s.drop_last(), k)
    } else {
        0
    }
}

/// A run is a prefix, its characters are all on the asked side of the
/// class, and the character after it, if any, is on the other side.
pub proof fn lemma_run_len(s: Seq<char>, k: CharClass, inside: bool)
    ensures
        run_len(s, k, inside) <= s.len(),
        forall|i: int| 0 <= i < run_len(s, k, inside) ==> in_class(#[trigger] s[i], k) == inside,
        run_len(s, k, inside) < s.len() ==> in_class(s[run_len(s, k, inside) as int], k)
            != inside,
    decreases s.len(),
{
    if s.len() > 0 && in_class(s[0], k) == inside {
        let rest = s.drop_first();
        lemma_run_len(rest, k, inside);
        assert forall|i: int| 0 <= i < run_len(s, k, inside) implies in_class(
            #[trigger] s[i],
            k,
        ) == inside by {
            if i > 0 {
                assert(s[i] == rest[i - 1]);
            }
        }
        if run_len(s, k, inside) < s.len() {
            assert(s[run_len(s, k, inside) as int] == rest[run_len(rest, k, inside) as int]);
        }
    }
}

/// A prefix with those properties is the run.
pub proof fn lemma_run_len_is(s: Seq<char>, k: CharClass, inside: bool, n: int)
    requires
        0 <= n <= s.len(),
        forall|i: int| 0 <= i < n ==> in_class(#[trigger] s[i], k) == inside,
        n < s.len() ==> in_class(s[n], k) != inside,
    ensures
        run_len(s, k, inside) == n,
    decreases n,
{
    if n > 0 {
        let rest = s.drop_first();
        assert(in_class(s[0], k) == inside);
        assert forall|i: int| 0 <= i < n - 1 implies in_class(#[trigger] rest[i], k)
            == inside by {
            assert(rest[i] == s[i + 1]);
        }
        lemma_run_len_is(rest, k, inside, n - 1);
    }
}

/// A trailing run is a suffix of characters of the class, and the character
/// before it, if any, is outside the class.
pub proof fn lemma_tail_len(s: Seq<char>, k: CharClass)
    ensures
        tail_len(s, k) <= s.len(),
        forall|i: int| s.len() - tail_len(s, k) <= i < s.len() ==> in_class(#[trigger] s[i], k),
        tail_len(s, k) < s.len() ==> !in_class(s[s.len() - tail_len(s, k) - 1], k),
    decreases s.len(),
{
    if s.len() > 0 && in_class(s.last(), k) {
        let rest = s.drop_last();
        lemma_tail_len(rest, k);
        assert forall|i: int| s.len() - tail_len(s, k) <= i < s.len() implies in_class(
            #[trigger] s[i],
            k,
        ) by {
            if i < s.len() - 1 {
                assert(s[i] == rest[i]);
            }
        }
        if tail_len(s, k) < s.len() {
            assert(s[s.len() - tail_len(s, k) - 1] == rest[rest.len() - tail_len(rest, k) - 1]);
        }
    }
}

/// A suffix with those properties is the trailing run.
pub proof fn lemma_tail_len_is(s: Seq<char>, k: CharClass, n: int)
    requires
        0 <= n <= s.len(),
        forall|i: int| s.len() - n <= i < s.len() ==> in_class(#[trigger] s[i], k),
        n < s.len() ==> !in_class(s[s.len() - n - 1], k),
    ensures
        tail_len(s, k) == n,
    decreases n,
{
    if n > 0 {
        let rest = s.drop_last();
        assert(in_class(s[s.len() - 1], k));
        assert forall|i: int| rest.len() - (n - 1) <= i < rest.len() implies in_class(
            #[trigger] rest[i],
            k,
        ) by {
            assert(rest[i] == s[i]);
        }
        lemma_tail_len_is(rest, k, n - 1);
    }
}

/// The end of the run that starts at `from`: the first position at or after
/// `from` whose character is on the other side of class `k`, or the length.
pub fn scan(s: &[char], from: usize, k: CharClass, inside: bool) -> (end: usize)
    requires
        from <= s@.len(),
    ensures
        end == from + run_len(s@.skip(from as int), k, inside),
        from <= end <= s@.len(),
{
    let mut i: usize = from;
    while i < s.len() && has_class(s[i], k) == inside
        invariant
            from <= i <= s@.len(),
            forall|j: int| from <= j < i ==> in_class(#[trigger] s@[j], k) == inside,
        decreases s@.len() - i,
    {
        i += 1;
    }
    proof {
        let rest = s@.skip(from as int);
        assert forall|j: int| 0 <= j < i - from implies in_class(#[trigger] rest[j], k)
            == inside by {
            assert(rest[j] == s@[from + j]);
        }
        lemma_run_len_is(rest, k, inside, i - from);
    }
    i
}

/// The start of the trailing run of class `k` in the characters from
/// `from` up to `to`.
pub fn scan_back(s: &[char], from: usize, to: usize, k: CharClass) -> (start: usize)
    requires
        from <= to <= s@.len(),
    ensures
        start == to - tail_len(s@.subrange(from as int, to as int), k),
        from <= start <= to,
{
    let mut i: usize = to;
    while i > from && has_class(s[i - 1], k)
        invariant
            from <= i <= to <= s@.len(),
            forall|j: int| i <= j < to ==> in_class(#[trigger] s@[j], k),
        decreases i,
    {
        i -= 1;
    }
    proof {
        let part = s@.subrange(from as int, to as int);
        assert forall|j: int| part.len() - (to - i) <= j < part.len() implies in_class(
            #[trigger] part[j],
            k,
        ) by {
            assert(part[j] == s@[from + j]);
        }
        if to - i < part.len() {
            assert(part[part.len() - (to - i) - 1] == s@[i - 1]);
        }
        lemma_tail_len_is(part, k, to - i);
    }
    i
}

/// `s` without the white space at its start and at its end.
pub open spec fn trimmed(s: Seq<char>) -> Seq<char> {
    let rest = s.skip(run_len(s, CharClass::Space, true) as int);
    rest.take(rest.len() - tail_len(rest, CharClass::Space))
}

/// Trimming cuts white space only, and leaves none at either end: the
/// trimmed text is the part of `s` between two positions, all before and
/// all after is white space, and its first and last character are not.
pub proof fn lemma_trimmed(s: Seq<char>)
    ensures
        ({
            let start = run_len(s, CharClass::Space, true) as int;
            let end = start + trimmed(s).len();
            &&& 0 <= start <= end <= s.len()
            &&& trimmed(s) == s.subrange(start, end)
            &&& forall|i: int| 0 <= i < start ==> is_space(#[trigger] s[i])
            &&& forall|i: int| end <= i < s.len() ==> is_space(#[trigger] s[i])
            &&& trimmed(s).len() > 0 ==> !is_space(trimmed(s).first()) && !is_space(
                trimmed(s).last(),
            )
        }),
{
    let start = run_len(s, CharClass::Space, true) as int;
    lemma_run_len(s, CharClass::Space, true);
    let rest = s.skip(start);
    lemma_tail_len(rest, CharClass::Space);
    let cut = tail_len(rest, CharClass::Space) as int;
    let end = start + trimmed(s).len();
    assert(trimmed(s) =~= s.subrange(start, end));
    assert forall|i: int| 0 <= i < start implies is_space(#[trigger] s[i]) by {
        assert(in_class(s[i], CharClass::Space));
    }
    assert forall|i: int| end <= i < s.len() implies is_space(#[trigger] s[i]) by {
        assert(in_class(rest[i - start], CharClass::Space));
    }
    if trimmed(s).len() > 0 {
        assert(trimmed(s).first() == s[start]);
        assert(trimmed(s).last() == rest[rest.len() - cut - 1]);
        assert(!in_class(s[start], CharClass::Space));
        assert(!in_class(rest[rest.len() - cut - 1], CharClass::Space));
    }
}

/// A copy of `s` without the white space at its start and at its end.
pub fn trim(s: &[char]) -> (v: Vec<char>)
    ensures
        v@ == trimmed(s@),
{
    let start = scan(s, 0, CharClass::Space, true);
    let end = scan_back(s, start, s.len(), CharClass::Space);
    let v = copy_range(s, start, end);
    proof {
        assert(s@.skip(0) =~= s@);
        let rest = s@.skip(start as int);
        assert(rest =~= s@.subrange(start as int, s@.len() as int));
        assert(v@ =~= rest.take(rest.len() - tail_len(rest, CharClass::Space)));
    }
    v
}

/// The view of each element of a sequence of character vectors.
pub open spec fn views(v: Seq<Vec<char>>) -> Seq<Seq<char>> {
    Seq::new(v.len(), |i: int| v[i]@)
}

/// The lines of a text: the parts between line feeds. A text with `n` line
/// feeds has `n + 1` lines, some of which may be empty.
pub open spec fn lines(s: Seq<char>) -> Seq<Seq<char>>
    decreases s.len(),
{
    let n = run_len(s, CharClass::LineBreak, false);
    if n >= s.len() {
        seq![s]
    } else {
        seq![s.take(n as int)] + lines(s.skip(n as int + 1))
    }
}

/// Lines put together again, with a line feed between each two.
pub open spec fn joined(ls: Seq<Seq<char>>) -> Seq<char>
    decreases ls.len(),
{
    if ls.len() == 0 {
        Seq::empty()
    } else if ls.len() == 1 {
        ls[0]
    } else {
        ls[0] + seq!['\n'] + joined(ls.drop_first())
    }
}

/// A text has at least one line, its lines joined by line feeds are the
/// text, and no line holds a line feed.
pub proof fn lemma_lines_partition(s: Seq<char>)
    ensures
        lines(s).len() >= 1,
        joined(lines(s)) == s,
        forall|i: int, j: int|
            0 <= i < lines(s).len() && 0 <= j < lines(s)[i].len() ==> #[trigger] lines(s)[i][j]
                != '\n',
    decreases s.len(),
{
    lemma_run_len(s, CharClass::LineBreak, false);
    let n = run_len(s, CharClass::LineBreak, false) as int;
    if n < s.len() {
        let rest = s.skip(n + 1);
        lemma_lines_partition(rest);
        let all = lines(s);
        assert(all.drop_first() =~= lines(rest));
        assert(joined(all) =~= s);
        assert forall|i: int, j: int| 0 <= i < all.len() && 0 <= j < all[i].len() implies #[trigger] all[i][j]
            != '\n' by {
            if i == 0 {
                assert(all[0][j] == s[j]);
            } else {
                assert(all[i] == lines(rest)[i - 1]);
            }
        }
    }
}

/// The words of a text: the maximal runs of characters outside class `k`,
/// in order.
pub open spec fn words_of(s: Seq<char>, k: CharClass) -> Seq<Seq<char>>
    decreases s.len(),
    via words_of_decreases
{
    let start = run_len(s, k, true);
    let rest = s.skip(start as int);
    let n = run_len(rest, k, false);
    if n == 0 {
        Seq::empty()
    } else {
        seq![rest.take(n as int)] + words_of(rest.skip(n as int), k)
    }
}

/// What is left after a word is shorter than the text.
#[via_fn]
proof fn words_of_decreases(s: Seq<char>, k: CharClass) {
    lemma_run_len(s, k, true);
    lemma_run_len(s.skip(run_len(s, k, true) as int), k, false);
}

/// The tokens of a statement: the maximal runs of characters that are
/// neither white space nor commas, in order.
pub open spec fn tokens(s: Seq<char>) -> Seq<Seq<char>> {
    words_of(s, CharClass::Separator)
}

/// No word is empty, and no word holds a character of the class.
pub proof fn lemma_words_are_words(s: Seq<char>, k: CharClass, i: int)
    requires
        0 <= i < words_of(s, k).len(),
    ensures
        words_of(s, k)[i].len() > 0,
        forall|j: int|
            0 <= j < words_of(s, k)[i].len() ==> !in_class(#[trigger] words_of(s, k)[i][j], k),
    decreases s.len(),
{
    lemma_run_len(s, k, true);
    let start = run_len(s, k, true);
    let rest = s.skip(start as int);
    lemma_run_len(rest, k, false);
    let n = run_len(rest, k, false);
    if n > 0 {
        if i > 0 {
            lemma_words_are_words(rest.skip(n as int), k, i - 1);
        }
    }
}

/// Splits a text into its lines.
pub fn split_lines(s: &[char]) -> (out: Vec<Vec<char>>)
    ensures
        views(out@) == lines(s@),
{
    let mut out: Vec<Vec<char>> = Vec::new();
    let mut pos: usize = 0;
    proof {
        assert(s@.skip(0) =~= s@);
        assert(views(out@) + lines(s@) =~= lines(s@));
    }
    loop
        invariant_except_break
            pos <= s@.len(),
            lines(s@) == views(out@) + lines(s@.skip(pos as int)),
        ensures
            views(out@) == lines(s@),
        decreases s@.len() - pos,
    {
        let end = scan(s, pos, CharClass::LineBreak, false);
        let line = copy_range(s, pos, end);
        let ghost before = views(out@);
        let ghost rest = s@.skip(pos as int);
        out.push(line);
        proof {
            assert(rest.take(end - pos) =~= s@.subrange(pos as int, end as int));
            assert(views(out@) =~= before.push(rest.take(end - pos)));
        }
        if end >= s.len() {
            proof {
                assert(rest.take(end - pos) =~= rest);
                assert(before + seq![rest] =~= before.push(rest));
            }
            break ;
        }
        proof {
            assert(rest.skip(end - pos + 1) =~= s@.skip(end + 1));
            assert(before + (seq![rest.take(end - pos)] + lines(rest.skip(end - pos + 1)))
                =~= before.push(rest.take(end - pos)) + lines(s@.skip(end + 1)));
        }
        pos = end + 1;
    }
    out
}

/// Splits a text into its words: the runs of characters outside class `k`.
pub fn split_words(s: &[char], k: CharClass) -> (out: Vec<Vec<char>>)
    ensures
        views(out@) == words_of(s@, k),
{
    let mut out: Vec<Vec<char>> = Vec::new();
    let mut pos: usize = 0;
    proof {
        assert(s@.skip(0) =~= s@);
        assert(views(out@) + words_of(s@, k) =~= words_of(s@, k));
    }
    loop
        invariant_except_break
            pos <= s@.len(),
            words_of(s@, k) == views(out@) + words_of(s@.skip(pos as int), k),
        ensures
            views(out@) == words_of(s@, k),
        decreases s@.len() - pos,
    {
        let start = scan(s, pos, k, true);
        let end = scan(s, start, k, false);
        let ghost before = views(out@);
        let ghost tail = s@.skip(pos as int);
        let ghost rest = tail.skip(start - pos);
        proof {
            assert(rest =~= s@.skip(start as int));
        }
        if end == start {
            proof {
                assert(before + Seq::<Seq<char>>::empty() =~= before);
            }
            break ;
        }
        let word = copy_range(s, start, end);
        out.push(word);
        proof {
            assert(rest.take(end - start) =~= s@.subrange(start as int, end as int));
            assert(views(out@) =~= before.push(rest.take(end - start)));
            assert(rest.skip(end - start) =~= s@.skip(end as int));
            assert(before + (seq![rest.take(end - start)] + words_of(rest.skip(end - start), k))
                =~= before.push(rest.take(end - start)) + words_of(s@.skip(end as int), k));
        }
        pos = end;
    }
    out
}

/// Splits a statement into its tokens.
pub fn split_tokens(s: &[char]) -> (out: Vec<Vec<char>>)
    ensures
        views(out@) == tokens(s@),
{
    split_words(s, CharClass::Separator)
}

} // verus!
